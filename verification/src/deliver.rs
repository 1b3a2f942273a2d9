//! Bringing a compressed file to where it belongs: a folder of the PC, a folder
//! of a device, or the place of the original on the device. Each [`Delivery`] says
//! which operation comes next and is told how it went. A delivery that fails
//! keeps the file in a folder for recovered files.

use crate::error;
use crate::error::AppError;
use crate::fs_bridge;
use crate::text;
use crate::text::{chars_of, same_text, text_between, trimmed_len};
use crate::winpath;
use crate::winpath::join_paths;
use crate::workspace;
use crate::workspace::recovered_dir;
use vstd::prelude::*;
use vstd::string::*;

verus! {

/// What a delivery has to say when it succeeds.
pub struct DeliverResult {
    pub note: Option<String>,
}

/// The contents of a [`DeliverResult`].
pub struct DeliverResultView {
    pub note: Option<Seq<char>>,
}

impl View for DeliverResult {
    type V = DeliverResultView;

    open spec fn view(&self) -> DeliverResultView {
        DeliverResultView { note: fs_bridge::text_in(self.note) }
    }
}

/// Where a delivery goes.
pub enum Destination {
    /// A folder of the PC, to be created where it is missing, and the file in it.
    Folder(String, String),
    /// A path on the device.
    Device(String),
}

/// The contents of a [`Destination`].
pub enum DestinationView {
    Folder(Seq<char>, Seq<char>),
    Device(Seq<char>),
}

impl View for Destination {
    type V = DestinationView;

    open spec fn view(&self) -> DestinationView {
        match self {
            Destination::Folder(dir, file) => DestinationView::Folder(dir@, file@),
            Destination::Device(path) => DestinationView::Device(path@),
        }
    }
}

/// A path in a device folder, whether or not the folder ends in slashes.
pub open spec fn device_path(dir: Seq<char>, name: Seq<char>) -> Seq<char> {
    text::trim_end(dir, seq!['/']) + "/"@ + name
}

/// Where a delivery in a mode goes, or why it cannot start.
pub open spec fn destination(
    mode: Seq<char>,
    remote_path: Seq<char>,
    remote_dir: Option<Seq<char>>,
    pc_dir: Option<Seq<char>>,
    new_name: Seq<char>,
) -> Result<DestinationView, error::AppErrorView> {
    if mode == "pc-folder"@ {
        match pc_dir {
            Some(dir) => Ok(DestinationView::Folder(dir, winpath::join(dir, new_name))),
            None => Err(error::AppErrorView::Other("未选择 PC 输出目录"@)),
        }
    } else if mode == "android-folder"@ {
        match remote_dir {
            Some(dir) => Ok(DestinationView::Device(device_path(dir, new_name))),
            None => Err(error::AppErrorView::Other("未选择设备目标目录"@)),
        }
    } else if mode == "replace"@ {
        Ok(DestinationView::Device(remote_path))
    } else {
        Err(error::AppErrorView::Other("未知交付模式: "@ + mode))
    }
}

/// Where a delivery in a mode goes, or why it cannot start.
pub fn choose_destination(
    mode: &str,
    remote_path: String,
    remote_dir: Option<String>,
    pc_dir: Option<String>,
    new_name: &str,
) -> (result: Result<Destination, AppError>)
    ensures
        match destination(
            mode@,
            remote_path@,
            fs_bridge::text_in(remote_dir),
            fs_bridge::text_in(pc_dir),
            new_name@,
        ) {
            Ok(expected) => result matches Ok(out) && out@ == expected,
            Err(expected) => result matches Err(e) && e@ == expected,
        },
{
    if same_text(mode, "pc-folder") {
        match pc_dir {
            Some(dir) => {
                let file = join_paths(dir.as_str(), new_name);
                Ok(Destination::Folder(dir, file))
            },
            None => Err(AppError::Other("未选择 PC 输出目录".to_owned())),
        }
    } else if same_text(mode, "android-folder") {
        match remote_dir {
            Some(dir) => {
                let chars = chars_of(dir.as_str());
                let slash = vec!['/'];
                assert(slash@ =~= seq!['/']);
                let end = trimmed_len(&chars, &slash);
                let base = text_between(&chars, 0, end);
                Ok(Destination::Device(base.concat("/").concat(new_name)))
            },
            None => Err(AppError::Other("未选择设备目标目录".to_owned())),
        }
    } else if same_text(mode, "replace") {
        Ok(Destination::Device(remote_path))
    } else {
        Err(AppError::Other("未知交付模式: ".to_owned().concat(mode)))
    }
}

/// How far a delivery has come.
pub enum Phase {
    /// The file is to be brought to its destination.
    Delivering(Destination),
    /// Delivering failed, with this message; the file is to be kept in this folder.
    Rescuing(String, String),
    Delivered,
    Failed(String),
}

/// The contents of a [`Phase`].
pub enum PhaseView {
    Delivering(DestinationView),
    Rescuing(Seq<char>, Seq<char>),
    Delivered,
    Failed(Seq<char>),
}

impl View for Phase {
    type V = PhaseView;

    open spec fn view(&self) -> PhaseView {
        match self {
            Phase::Delivering(destination) => PhaseView::Delivering(destination@),
            Phase::Rescuing(message, dir) => PhaseView::Rescuing(message@, dir@),
            Phase::Delivered => PhaseView::Delivered,
            Phase::Failed(message) => PhaseView::Failed(message@),
        }
    }
}

/// How the operation that was asked for went.
pub enum Event {
    /// The file is at its destination.
    Done,
    /// A file operation failed, for this reason.
    FileError(String),
    /// The program `adb` was not found.
    NoAdb(AppError),
    /// The program could not be started, for this reason.
    NotStarted(String),
    /// The program reported a failure.
    PushFailed,
    /// The file was kept.
    Rescued,
    /// The file could not be kept.
    NotRescued,
}

/// The contents of an [`Event`].
pub enum EventView {
    Done,
    FileError(Seq<char>),
    NoAdb(error::AppErrorView),
    NotStarted(Seq<char>),
    PushFailed,
    Rescued,
    NotRescued,
}

impl View for Event {
    type V = EventView;

    open spec fn view(&self) -> EventView {
        match self {
            Event::Done => EventView::Done,
            Event::FileError(reason) => EventView::FileError(reason@),
            Event::NoAdb(e) => EventView::NoAdb(e@),
            Event::NotStarted(reason) => EventView::NotStarted(reason@),
            Event::PushFailed => EventView::PushFailed,
            Event::Rescued => EventView::Rescued,
            Event::NotRescued => EventView::NotRescued,
        }
    }
}

/// What is to be done next.
pub enum Action {
    /// Create this folder where it is missing, then copy the second path to the
    /// third.
    Copy(String, String, String),
    /// Push the first path to the second on the device.
    Push(String, String),
    /// Create this folder where it is missing, then copy the second path to the
    /// third, which keeps the file.
    Rescue(String, String, String),
    /// Nothing: this is the outcome.
    Finish(Result<DeliverResult, AppError>),
}

/// The contents of an [`Action`].
pub enum ActionView {
    Copy(Seq<char>, Seq<char>, Seq<char>),
    Push(Seq<char>, Seq<char>),
    Rescue(Seq<char>, Seq<char>, Seq<char>),
    Finish(Result<DeliverResultView, error::AppErrorView>),
}

impl View for Action {
    type V = ActionView;

    open spec fn view(&self) -> ActionView {
        match self {
            Action::Copy(dir, from, to) => ActionView::Copy(dir@, from@, to@),
            Action::Push(from, to) => ActionView::Push(from@, to@),
            Action::Rescue(dir, from, to) => ActionView::Rescue(dir@, from@, to@),
            Action::Finish(Ok(result)) => ActionView::Finish(Ok(result@)),
            Action::Finish(Err(e)) => ActionView::Finish(Err(e@)),
        }
    }
}

/// The delivery of one file: what is delivered, under which name, in which folder
/// the file is kept where delivering fails, and how far it has come.
pub struct Delivery {
    pub local_path: String,
    pub new_name: String,
    pub recovered: Option<String>,
    pub phase: Phase,
}

/// The contents of a [`Delivery`].
pub struct DeliveryView {
    pub local_path: Seq<char>,
    pub new_name: Seq<char>,
    pub recovered: Option<Seq<char>>,
    pub phase: PhaseView,
}

impl View for Delivery {
    type V = DeliveryView;

    open spec fn view(&self) -> DeliveryView {
        DeliveryView {
            local_path: self.local_path@,
            new_name: self.new_name@,
            recovered: fs_bridge::text_in(self.recovered),
            phase: self.phase@,
        }
    }
}

/// The error that an event tells of, if it tells of one.
pub open spec fn delivery_error(event: EventView) -> Option<error::AppErrorView> {
    match event {
        EventView::FileError(reason) => Some(error::AppErrorView::Io(reason)),
        EventView::NoAdb(e) => Some(e),
        EventView::NotStarted(reason) => Some(
            error::AppErrorView::Other("adb push failed: "@ + reason),
        ),
        EventView::PushFailed => Some(
            error::AppErrorView::Other("adb push 失败：请确认设备已连接并启用 USB 调试"@),
        ),
        _ => None,
    }
}

/// The phase after an error: the file is to be kept if there is a folder for it.
pub open spec fn phase_after_error(
    e: error::AppErrorView,
    recovered: Option<Seq<char>>,
) -> PhaseView {
    match recovered {
        Some(dir) => PhaseView::Rescuing(e.message(), dir),
        None => PhaseView::Failed(e.message()),
    }
}

impl DeliveryView {
    /// A delivery of which nothing is done yet.
    pub open spec fn start(
        local_path: Seq<char>,
        new_name: Seq<char>,
        recovered: Option<Seq<char>>,
        destination: Result<DestinationView, error::AppErrorView>,
    ) -> DeliveryView {
        DeliveryView {
            local_path,
            new_name,
            recovered,
            phase: match destination {
                Ok(destination) => PhaseView::Delivering(destination),
                Err(e) => phase_after_error(e, recovered),
            },
        }
    }

    /// The file is kept nowhere but in the folder for recovered files.
    pub open spec fn well_formed(self) -> bool {
        self.phase matches PhaseView::Rescuing(_, dir) ==> self.recovered == Some(dir)
    }

    /// What is to be done next.
    pub open spec fn action(self) -> ActionView {
        match self.phase {
            PhaseView::Delivering(DestinationView::Folder(dir, file)) => ActionView::Copy(
                dir,
                self.local_path,
                file,
            ),
            PhaseView::Delivering(DestinationView::Device(path)) => ActionView::Push(
                self.local_path,
                path,
            ),
            PhaseView::Rescuing(_, dir) => ActionView::Rescue(
                dir,
                self.local_path,
                winpath::join(dir, self.new_name),
            ),
            PhaseView::Delivered => ActionView::Finish(Ok(DeliverResultView { note: None })),
            PhaseView::Failed(message) => ActionView::Finish(
                Err(error::AppErrorView::Other(message)),
            ),
        }
    }

    /// The phase after an event. An event that is no answer to the action changes
    /// nothing.
    pub open spec fn phase_after(self, event: EventView) -> PhaseView {
        match (self.phase, event) {
            (PhaseView::Delivering(_), EventView::Done) => PhaseView::Delivered,
            (PhaseView::Delivering(_), _) => match delivery_error(event) {
                Some(e) => phase_after_error(e, self.recovered),
                None => self.phase,
            },
            (PhaseView::Rescuing(message, dir), EventView::Rescued) => PhaseView::Failed(
                message + "；压缩结果已复制到 "@ + winpath::join(dir, self.new_name),
            ),
            (PhaseView::Rescuing(message, _), EventView::NotRescued) => PhaseView::Failed(message),
            _ => self.phase,
        }
    }

    /// The delivery after an event.
    pub open spec fn after(self, event: EventView) -> DeliveryView {
        DeliveryView { phase: self.phase_after(event), ..self }
    }

    /// The delivery after a row of events.
    pub open spec fn after_all(self, events: Seq<EventView>) -> DeliveryView
        decreases events.len(),
    {
        if events.len() == 0 {
            self
        } else {
            self.after_all(events.drop_last()).after(events.last())
        }
    }
}

/// The phase after an error.
fn after_error(e: &AppError, recovered: &Option<String>) -> (phase: Phase)
    ensures
        phase@ == phase_after_error(e@, fs_bridge::text_in(*recovered)),
{
    match recovered {
        Some(dir) => Phase::Rescuing(e.message(), dir.clone()),
        None => Phase::Failed(e.message()),
    }
}

/// Deliver the compressed file `local_path`: with mode `pc-folder` into the folder
/// `pc_dir`, with `android-folder` into the device folder `remote_dir`, with
/// `replace` onto `remote_path`. `profile` is the user's profile folder.
pub fn deliver_to_device(
    local_path: String,
    mode: String,
    remote_path: String,
    remote_dir: Option<String>,
    pc_dir: Option<String>,
    new_name: String,
    profile: Option<String>,
) -> (delivery: Delivery)
    ensures
        delivery@.well_formed(),
        delivery@ == DeliveryView::start(
            local_path@,
            new_name@,
            match profile {
                Some(profile) => Some(workspace::documents_folder(profile@, "recovered"@)),
                None => None,
            },
            destination(
                mode@,
                remote_path@,
                fs_bridge::text_in(remote_dir),
                fs_bridge::text_in(pc_dir),
                new_name@,
            ),
        ),
{
    let recovered = match recovered_dir(profile) {
        Ok(dir) => Some(dir),
        Err(_) => None,
    };
    let phase = match choose_destination(
        mode.as_str(),
        remote_path,
        remote_dir,
        pc_dir,
        new_name.as_str(),
    ) {
        Ok(destination) => Phase::Delivering(destination),
        Err(e) => after_error(&e, &recovered),
    };
    Delivery { local_path, new_name, recovered, phase }
}

impl Delivery {
    /// What is to be done next.
    pub fn action(&self) -> (action: Action)
        ensures
            action@ == self@.action(),
    {
        match &self.phase {
            Phase::Delivering(Destination::Folder(dir, file)) => Action::Copy(
                dir.clone(),
                self.local_path.clone(),
                file.clone(),
            ),
            Phase::Delivering(Destination::Device(path)) => Action::Push(
                self.local_path.clone(),
                path.clone(),
            ),
            Phase::Rescuing(_, dir) => Action::Rescue(
                dir.clone(),
                self.local_path.clone(),
                join_paths(dir.as_str(), self.new_name.as_str()),
            ),
            Phase::Delivered => Action::Finish(Ok(DeliverResult { note: None })),
            Phase::Failed(message) => Action::Finish(Err(AppError::Other(message.clone()))),
        }
    }

    /// Takes note of how the operation went that [`Delivery::action`] asked for.
    pub fn advance(&mut self, event: Event)
        ensures
            final(self)@ == old(self)@.after(event@),
            old(self)@.well_formed() ==> final(self)@.well_formed(),
    {
        let next = match &self.phase {
            Phase::Delivering(_) => match event {
                Event::Done => Phase::Delivered,
                Event::FileError(reason) => after_error(&AppError::Io(reason), &self.recovered),
                Event::NoAdb(e) => after_error(&e, &self.recovered),
                Event::NotStarted(reason) => {
                    let text = "adb push failed: ".to_owned().concat(reason.as_str());
                    after_error(&AppError::Other(text), &self.recovered)
                },
                Event::PushFailed => {
                    let text = "adb push 失败：请确认设备已连接并启用 USB 调试".to_owned();
                    after_error(&AppError::Other(text), &self.recovered)
                },
                _ => {
                    return;
                },
            },
            Phase::Rescuing(message, dir) => match event {
                Event::Rescued => {
                    let kept = join_paths(dir.as_str(), self.new_name.as_str());
                    Phase::Failed(
                        message.clone().concat("；压缩结果已复制到 ").concat(kept.as_str()),
                    )
                },
                Event::NotRescued => Phase::Failed(message.clone()),
                _ => {
                    return;
                },
            },
            _ => {
                return;
            },
        };
        self.phase = next;
    }
}

/// What `adb` is called with to push a file.
pub fn push_args(from: &str, to: &str) -> (args: Vec<String>)
    ensures
        text::texts(args@) == seq!["push"@, from@, to@],
{
    let args = vec!["push".to_owned(), from.to_owned(), to.to_owned()];
    assert(text::texts(args@) =~= seq!["push"@, from@, to@]);
    args
}

/// The event at `i` answers the request to keep the file in the folder `dir`, and
/// the delivery has failed with the message that was to be told then: followed by
/// the path where the file was kept, if it was kept.
pub open spec fn rescue_decided(
    start: DeliveryView,
    events: Seq<EventView>,
    dir: Seq<char>,
    i: int,
) -> bool {
    let before = start.after_all(events.take(i));
    let kept = winpath::join(dir, start.new_name);
    &&& before.action() == ActionView::Rescue(dir, start.local_path, kept)
    &&& events[i] == EventView::Rescued || events[i] == EventView::NotRescued
    &&& before.phase matches PhaseView::Rescuing(message, _)
    &&& start.after_all(events).phase == PhaseView::Failed(
        if events[i] == EventView::Rescued {
            message + "；压缩结果已复制到 "@ + kept
        } else {
            message
        },
    )
}

/// Where there is a folder for recovered files, every delivery that ends with an
/// error has asked before for the file to be kept there, and been told whether it
/// was; its message names the path where the file was kept.
pub proof fn failure_comes_after_rescue(start: DeliveryView, events: Seq<EventView>)
    requires
        start.recovered is Some,
        start.well_formed(),
        !(start.phase is Failed),
        start.after_all(events).phase is Failed,
    ensures
        exists|i: int|
            0 <= i < events.len() && #[trigger] rescue_decided(
                start,
                events,
                start.recovered->Some_0,
                i,
            ),
    decreases events.len(),
{
    let dir = start.recovered->Some_0;
    let front = events.drop_last();
    let n = front.len() as int;
    assert(events.take(n) =~= front);
    only_the_phase_changes(start, front);
    if start.after_all(front).phase is Failed {
        failure_comes_after_rescue(start, front);
        let i = choose|i: int|
            0 <= i < front.len() && #[trigger] rescue_decided(start, front, dir, i);
        assert(events.take(i) =~= front.take(i));
        assert(rescue_decided(start, events, dir, i));
    } else {
        assert(rescue_decided(start, events, dir, n));
    }
}

/// Whatever happens, what is delivered, under which name and where it is kept in
/// need stays the same.
pub proof fn only_the_phase_changes(start: DeliveryView, events: Seq<EventView>)
    ensures
        start.after_all(events).local_path == start.local_path,
        start.after_all(events).new_name == start.new_name,
        start.after_all(events).recovered == start.recovered,
        start.well_formed() ==> start.after_all(events).well_formed(),
    decreases events.len(),
{
    if events.len() > 0 {
        only_the_phase_changes(start, events.drop_last());
    }
}

/// A delivery succeeds only where the file was brought to its destination: the
/// first operation was to copy or push it there, and it was done.
pub proof fn success_means_delivered(start: DeliveryView, events: Seq<EventView>)
    requires
        !(start.phase is Delivered),
        start.after_all(events).phase is Delivered,
    ensures
        start.action() is Copy || start.action() is Push,
        exists|i: int|
            0 <= i < events.len() && #[trigger] start.after_all(events.take(i)) == start
                && events[i] == EventView::Done,
    decreases events.len(),
{
    let front = events.drop_last();
    let n = front.len() as int;
    assert(events.take(n) =~= front);
    if start.after_all(front).phase is Delivered {
        success_means_delivered(start, front);
        let i = choose|i: int|
            0 <= i < front.len() && #[trigger] start.after_all(front.take(i)) == start && front[i]
                == EventView::Done;
        assert(events.take(i) =~= front.take(i));
        assert(start.after_all(events.take(i)) == start && events[i] == EventView::Done);
    } else {
        delivering_comes_first(start, front);
        assert(start.after_all(events.take(n)) == start && events[n] == EventView::Done);
    }
}

/// As long as a delivery is still to be made, nothing has changed.
proof fn delivering_comes_first(start: DeliveryView, events: Seq<EventView>)
    requires
        start.after_all(events).phase is Delivering,
    ensures
        start.after_all(events) == start,
    decreases events.len(),
{
    if events.len() > 0 {
        delivering_comes_first(start, events.drop_last());
    }
}

/// An event that answers the action.
pub open spec fn answers(event: EventView, action: ActionView) -> bool {
    match action {
        ActionView::Copy(_, _, _) => event is Done || event is FileError,
        ActionView::Push(_, _) => event is Done || event is NoAdb || event is NotStarted
            || event is PushFailed,
        ActionView::Rescue(_, _, _) => event is Rescued || event is NotRescued,
        ActionView::Finish(_) => false,
    }
}

/// How many more operations a delivery can ask for at most.
pub open spec fn operations_left(phase: PhaseView) -> int {
    match phase {
        PhaseView::Delivering(_) => 2,
        PhaseView::Rescuing(_, _) => 1,
        PhaseView::Delivered => 0,
        PhaseView::Failed(_) => 0,
    }
}

/// Every answer brings the end nearer: a delivery asks for two operations at most.
pub proof fn every_answer_makes_progress(delivery: DeliveryView, event: EventView)
    requires
        answers(event, delivery.action()),
    ensures
        0 <= operations_left(delivery.after(event).phase) < operations_left(delivery.phase) <= 2,
{
}

/// Once a delivery has its outcome, no event changes it.
pub proof fn outcome_is_final(delivery: DeliveryView, event: EventView)
    requires
        delivery.action() is Finish,
    ensures
        delivery.after(event) == delivery,
{
}

/// A device folder means the same with slashes at its end as without.
pub proof fn slashes_at_the_end_do_not_matter(dir: Seq<char>, name: Seq<char>)
    ensures
        device_path(dir.push('/'), name) == device_path(dir, name),
{
    assert(seq!['/'][0] == '/');
    assert(seq!['/'].contains('/'));
    assert(dir.push('/').drop_last() =~= dir);
}

/// A file goes into just the device folder that was chosen: its path is the folder,
/// one slash and the name, however many slashes the folder was written with at its
/// end.
pub proof fn file_goes_into_the_chosen_folder(dir: Seq<char>, slashes: Seq<char>, name: Seq<char>)
    requires
        dir.len() == 0 || dir[dir.len() - 1] != '/',
        forall|i: int| 0 <= i < slashes.len() ==> #[trigger] slashes[i] == '/',
    ensures
        device_path(dir + slashes, name) == dir + seq!['/'] + name,
        device_path(dir, name) == dir + seq!['/'] + name,
    decreases slashes.len(),
{
    reveal_strlit("/");
    assert("/"@ =~= seq!['/']);
    let slash = seq!['/'];
    assert(slash[0] == '/');
    assert(slash.contains('/'));
    if dir.len() > 0 {
        assert(!slash.contains(dir.last())) by {
            if slash.contains(dir.last()) {
                let k = choose|k: int| 0 <= k < slash.len() && slash[k] == dir.last();
                assert(slash[k] == '/');
            }
        }
    }
    assert(text::trim_end(dir, slash) == dir);
    if slashes.len() == 0 {
        assert(dir + slashes =~= dir);
    } else {
        let fewer = slashes.drop_last();
        assert forall|i: int| 0 <= i < fewer.len() implies #[trigger] fewer[i] == '/' by {
            assert(fewer[i] == slashes[i]);
        }
        file_goes_into_the_chosen_folder(dir, fewer, name);
        assert(slashes[slashes.len() - 1] == '/');
        assert((dir + slashes).drop_last() =~= dir + fewer);
        assert((dir + slashes).last() == '/');
        slashes_at_the_end_do_not_matter(dir + fewer, name);
        assert((dir + fewer).push('/') =~= dir + slashes);
    }
}

/// Each mode has its own destination, told by the folder or path that it is about; a
/// folder that was not chosen and a mode that does not exist are errors.
pub proof fn mode_tells_the_destination(
    mode: &str,
    remote_path: String,
    remote_dir: Option<String>,
    pc_dir: Option<String>,
    new_name: &str,
    result: Result<Destination, AppError>,
)
    requires
        call_ensures(
            choose_destination,
            (mode, remote_path, remote_dir, pc_dir, new_name),
            result,
        ),
    ensures
        mode@ == "pc-folder"@ ==> match pc_dir {
            Some(dir) => result matches Ok(Destination::Folder(folder, file)) && folder@ == dir@
                && file@ == winpath::join(dir@, new_name@),
            None => result matches Err(AppError::Other(m)) && m@ == "未选择 PC 输出目录"@,
        },
        mode@ == "android-folder"@ ==> match remote_dir {
            Some(dir) => result matches Ok(Destination::Device(path)) && ((dir@.len() == 0
                || dir@[dir@.len() - 1] != '/') ==> path@ == dir@ + seq!['/'] + new_name@),
            None => result matches Err(AppError::Other(m)) && m@ == "未选择设备目标目录"@,
        },
        mode@ == "replace"@ ==> (result matches Ok(Destination::Device(path)) && path@
            == remote_path@),
        mode@ != "pc-folder"@ && mode@ != "android-folder"@ && mode@ != "replace"@ ==> (
        result matches Err(AppError::Other(m)) && m@ == "未知交付模式: "@ + mode@),
{
    reveal_strlit("pc-folder");
    reveal_strlit("android-folder");
    reveal_strlit("replace");
    assert("pc-folder"@.len() != "android-folder"@.len());
    assert("pc-folder"@.len() != "replace"@.len());
    assert("android-folder"@.len() != "replace"@.len());
    if let Some(dir) = remote_dir {
        if dir@.len() == 0 || dir@[dir@.len() - 1] != '/' {
            file_goes_into_the_chosen_folder(dir@, Seq::empty(), new_name@);
        }
    }
}

/// A delivery brings the given file, whole and under the new name, to the
/// destination of its mode, and the first answer `Done` is its success.
pub proof fn delivery_brings_the_file(
    local_path: String,
    mode: String,
    remote_path: String,
    remote_dir: Option<String>,
    pc_dir: Option<String>,
    new_name: String,
    profile: Option<String>,
    delivery: Delivery,
    action: Action,
)
    requires
        call_ensures(
            deliver_to_device,
            (local_path, mode, remote_path, remote_dir, pc_dir, new_name, profile),
            delivery,
        ),
        call_ensures(Delivery::action, (&delivery,), action),
    ensures
        delivery.local_path@ == local_path@,
        delivery.new_name@ == new_name@,
        mode@ == "pc-folder"@ && pc_dir is Some ==> (action matches Action::Copy(dir, from, to)
            && dir@ == pc_dir->Some_0@ && from@ == local_path@ && to@ == winpath::join(
            pc_dir->Some_0@,
            new_name@,
        )),
        mode@ == "android-folder"@ && remote_dir is Some ==> (action matches Action::Push(from, to)
            && from@ == local_path@ && ((remote_dir->Some_0@.len() == 0
            || remote_dir->Some_0@[remote_dir->Some_0@.len() - 1] != '/') ==> to@
            == remote_dir->Some_0@ + seq!['/'] + new_name@)),
        mode@ == "replace"@ ==> (action matches Action::Push(from, to) && from@ == local_path@
            && to@ == remote_path@),
        action is Copy || action is Push ==> delivery@.after(EventView::Done).action()
            == ActionView::Finish(Ok(DeliverResultView { note: None })),
        profile is None ==> delivery.recovered is None,
        profile is Some ==> (delivery.recovered matches Some(dir) && dir@
            == workspace::documents_folder(profile->Some_0@, "recovered"@)),
{
    reveal_strlit("pc-folder");
    reveal_strlit("android-folder");
    reveal_strlit("replace");
    assert("pc-folder"@.len() != "android-folder"@.len());
    assert("pc-folder"@.len() != "replace"@.len());
    assert("android-folder"@.len() != "replace"@.len());
    if let Some(dir) = remote_dir {
        if dir@.len() == 0 || dir@[dir@.len() - 1] != '/' {
            file_goes_into_the_chosen_folder(dir@, Seq::empty(), new_name@);
        }
    }
}

/// The message of a delivery that fails on its way starts with what went wrong. With
/// a folder for recovered files the file is to be copied there first, under its new
/// name, and the message goes on with that path if that worked; without one the
/// failure is the outcome at once.
pub proof fn failure_tells_what_went_wrong(
    delivery: DeliveryView,
    event: EventView,
    message: Seq<char>,
)
    requires
        delivery.phase is Delivering,
        ({
            ||| event matches EventView::FileError(reason) && message == "IO error: "@ + reason
            ||| event matches EventView::NotStarted(reason) && message == "adb push failed: "@
                + reason
            ||| event == EventView::PushFailed && message
                == "adb push 失败：请确认设备已连接并启用 USB 调试"@
            ||| event matches EventView::NoAdb(error::AppErrorView::Other(text)) && message == text
        }),
    ensures
        delivery.recovered is None ==> delivery.after(event).action() == ActionView::Finish(
            Err(error::AppErrorView::Other(message)),
        ),
        delivery.recovered matches Some(dir) ==> {
            let kept = winpath::join(dir, delivery.new_name);
            &&& delivery.after(event).action() == ActionView::Rescue(
                dir,
                delivery.local_path,
                kept,
            )
            &&& delivery.after(event).after(EventView::NotRescued).action() == ActionView::Finish(
                Err(error::AppErrorView::Other(message)),
            )
            &&& delivery.after(event).after(EventView::Rescued).action() == ActionView::Finish(
                Err(
                    error::AppErrorView::Other(
                        message + "；压缩结果已复制到 "@ + kept,
                    ),
                ),
            )
        },
{
}

/// A delivery that cannot start fails in the same way: the file is to be kept first.
pub proof fn delivery_that_cannot_start_is_rescued(
    local_path: Seq<char>,
    new_name: Seq<char>,
    recovered: Option<Seq<char>>,
    e: error::AppErrorView,
)
    ensures
        ({
            let start = DeliveryView::start(local_path, new_name, recovered, Err(e));
            &&& recovered is None ==> start.action() == ActionView::Finish(
                Err(error::AppErrorView::Other(e.message())),
            )
            &&& recovered matches Some(dir) ==> start.action() == ActionView::Rescue(
                dir,
                local_path,
                winpath::join(dir, new_name),
            ) && start.after(EventView::NotRescued).action() == ActionView::Finish(
                Err(error::AppErrorView::Other(e.message())),
            ) && start.after(EventView::Rescued).action() == ActionView::Finish(
                Err(
                    error::AppErrorView::Other(
                        e.message() + "；压缩结果已复制到 "@ + winpath::join(dir, new_name),
                    ),
                ),
            )
        }),
{
}

/// Each operation names the paths that the delivery was started with.
pub proof fn actions_name_the_paths(delivery: Delivery, action: Action)
    requires
        call_ensures(Delivery::action, (&delivery,), action),
    ensures
        delivery.phase matches Phase::Delivering(Destination::Folder(dir, file)) ==> (
        action matches Action::Copy(d, from, to) && d@ == dir@ && from@ == delivery.local_path@
            && to@ == file@),
        delivery.phase matches Phase::Delivering(Destination::Device(path)) ==> (
        action matches Action::Push(from, to) && from@ == delivery.local_path@ && to@ == path@),
        delivery.phase matches Phase::Rescuing(_, dir) ==> (action matches Action::Rescue(
            d,
            from,
            to,
        ) && d@ == dir@ && from@ == delivery.local_path@ && to@ == winpath::join(
            dir@,
            delivery.new_name@,
        )),
        delivery.phase is Delivered ==> (action matches Action::Finish(Ok(result))
            && result.note is None),
        delivery.phase matches Phase::Failed(message) ==> (action matches Action::Finish(
            Err(AppError::Other(text)),
        ) && text@ == message@),
{
}

/// An event that answers another question than the one asked changes nothing.
pub proof fn other_answers_change_nothing(delivery: DeliveryView, event: EventView)
    requires
        delivery.phase is Delivering ==> event is Rescued || event is NotRescued,
        delivery.phase is Rescuing ==> !(event is Rescued) && !(event is NotRescued),
    ensures
        delivery.after(event) == delivery,
{
}

/// `adb` is told to push just the file to just the place.
pub proof fn push_names_both_paths(from: &str, to: &str, args: Vec<String>)
    requires
        call_ensures(push_args, (from, to), args),
    ensures
        args@.len() == 3,
        args@[0]@ == "push"@,
        args@[1]@ == from@,
        args@[2]@ == to@,
{
    assert(text::texts(args@).len() == 3);
    assert(text::texts(args@)[0] == args@[0]@);
    assert(text::texts(args@)[1] == args@[1]@);
    assert(text::texts(args@)[2] == args@[2]@);
}

/// Slashes at the end of the chosen device folder do not change where the file goes.
pub proof fn chosen_folder_may_end_in_slashes(
    mode: &str,
    remote_path: String,
    remote_dir: String,
    pc_dir: Option<String>,
    new_name: &str,
    result: Result<Destination, AppError>,
    base: Seq<char>,
    slashes: Seq<char>,
)
    requires
        call_ensures(
            choose_destination,
            (mode, remote_path, Some(remote_dir), pc_dir, new_name),
            result,
        ),
        mode@ == "android-folder"@,
        remote_dir@ == base + slashes,
        base.len() == 0 || base[base.len() - 1] != '/',
        forall|i: int| 0 <= i < slashes.len() ==> #[trigger] slashes[i] == '/',
    ensures
        result matches Ok(Destination::Device(path)) && path@ == base + seq!['/'] + new_name@,
{
    reveal_strlit("pc-folder");
    reveal_strlit("android-folder");
    assert("pc-folder"@.len() != "android-folder"@.len());
    file_goes_into_the_chosen_folder(base, slashes, new_name@);
}

/// The delivery has this message to tell: it has failed with it, or will once the
/// file was to be kept in its folder.
pub open spec fn told_of(delivery: Delivery, message: Seq<char>) -> bool {
    match delivery.recovered {
        None => delivery.phase matches Phase::Failed(text) && text@ == message,
        Some(folder) => delivery.phase matches Phase::Rescuing(text, dir) && text@ == message
            && dir@ == folder@,
    }
}

/// What [`Delivery::advance`] makes of a delivery: what is delivered and under which
/// name stays, and its phase is the one that follows the event.
pub proof fn advancing_follows_the_event(delivery: &mut Delivery, event: Event)
    requires
        call_ensures(Delivery::advance, (delivery, event), ()),
    ensures
        final(delivery).local_path@ == old(delivery).local_path@,
        final(delivery).new_name@ == old(delivery).new_name@,
        fs_bridge::text_in(final(delivery).recovered) == fs_bridge::text_in(old(delivery).recovered),
        final(delivery)@ == old(delivery)@.after(event@),
        old(delivery).phase is Delivering && event is Done ==> final(delivery).phase is Delivered,
        old(delivery).phase is Delivering ==> {
            &&& event matches Event::FileError(reason) ==> told_of(*final(delivery), "IO error: "@
                + reason@)
            &&& event matches Event::NotStarted(reason) ==> told_of(
                *final(delivery),
                "adb push failed: "@ + reason@,
            )
            &&& event is PushFailed ==> told_of(
                *final(delivery),
                "adb push 失败：请确认设备已连接并启用 USB 调试"@,
            )
            &&& event matches Event::NoAdb(AppError::Other(text)) ==> told_of(
                *final(delivery),
                text@,
            )
        },
        old(delivery).phase matches Phase::Rescuing(message, dir) ==> {
            &&& event is NotRescued ==> (final(delivery).phase matches Phase::Failed(text) && text@
                == message@)
            &&& event is Rescued ==> (final(delivery).phase matches Phase::Failed(text) && text@
                == message@ + "；压缩结果已复制到 "@ + winpath::join(
                dir@,
                old(delivery).new_name@,
            ))
        },
{
}

/// The program that was not found is told of by its own error, whatever kind it is.
pub proof fn missing_program_is_told_of(delivery: DeliveryView, e: error::AppErrorView)
    requires
        delivery.phase is Delivering,
    ensures
        delivery.recovered is None ==> delivery.after(EventView::NoAdb(e)).action()
            == ActionView::Finish(Err(error::AppErrorView::Other(e.message()))),
        delivery.recovered is Some ==> delivery.after(EventView::NoAdb(e)).after(
            EventView::NotRescued,
        ).action() == ActionView::Finish(Err(error::AppErrorView::Other(e.message()))),
{
}

/// A delivery that has no destination asks for the file to be kept at once, and else
/// has failed with the reason.
pub proof fn delivery_without_destination_fails(
    local_path: String,
    mode: String,
    remote_path: String,
    remote_dir: Option<String>,
    pc_dir: Option<String>,
    new_name: String,
    profile: Option<String>,
    delivery: Delivery,
    action: Action,
)
    requires
        call_ensures(
            deliver_to_device,
            (local_path, mode, remote_path, remote_dir, pc_dir, new_name, profile),
            delivery,
        ),
        call_ensures(Delivery::action, (&delivery,), action),
        mode@ != "replace"@,
        mode@ == "pc-folder"@ ==> pc_dir is None,
        mode@ == "android-folder"@ ==> remote_dir is None,
    ensures
        ({
            let message = if mode@ == "pc-folder"@ {
                "未选择 PC 输出目录"@
            } else if mode@ == "android-folder"@ {
                "未选择设备目标目录"@
            } else {
                "未知交付模式: "@ + mode@
            };
            &&& profile is None ==> (action matches Action::Finish(Err(AppError::Other(text)))
                && text@ == message)
            &&& profile matches Some(folder) ==> ({
                let dir = workspace::documents_folder(folder@, "recovered"@);
                &&& action matches Action::Rescue(d, from, to)
                &&& d@ == dir
                &&& from@ == local_path@
                &&& to@ == winpath::join(dir, new_name@)
                &&& delivery.phase matches Phase::Rescuing(text, _)
                &&& text@ == message
            })
        }),
{
}

} // verus!
