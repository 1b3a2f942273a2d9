//! Replacing an original file by its compressed version, one file operation at
//! a time. Each [`Replacement`] says which operation comes next and is told how
//! it went.

use crate::error;
use crate::error::AppError;
use crate::fs_bridge;
use crate::fs_bridge::compute_replace_target;
use crate::text::same_text;
use vstd::prelude::*;
use vstd::string::*;

verus! {

/// How often a rename is tried again while another process holds the file.
pub const RENAME_RETRIES: u8 = 5;

/// How long to wait before a rename is tried again, in milliseconds.
pub const RETRY_WAIT_MILLIS: u64 = 100;

/// The system error that tells that another process holds a file.
pub const SHARING_VIOLATION: i32 = 32;

/// How far a replacement has come.
pub enum Phase {
    MeasuringCompressed,
    /// Holds the size of the compressed file.
    MeasuringOriginal(u64),
    RecyclingOriginal,
    CheckingTarget,
    RemovingTarget,
    /// Holds how many more times the rename may be tried again.
    Renaming(u8),
    /// Holds how many more times the rename may be tried again.
    Waiting(u8),
    Succeeded,
    Failed(AppError),
}

/// The contents of a [`Phase`].
pub enum PhaseView {
    MeasuringCompressed,
    MeasuringOriginal(u64),
    RecyclingOriginal,
    CheckingTarget,
    RemovingTarget,
    Renaming(u8),
    Waiting(u8),
    Succeeded,
    Failed(error::AppErrorView),
}

impl View for Phase {
    type V = PhaseView;

    open spec fn view(&self) -> PhaseView {
        match self {
            Phase::MeasuringCompressed => PhaseView::MeasuringCompressed,
            Phase::MeasuringOriginal(size) => PhaseView::MeasuringOriginal(*size),
            Phase::RecyclingOriginal => PhaseView::RecyclingOriginal,
            Phase::CheckingTarget => PhaseView::CheckingTarget,
            Phase::RemovingTarget => PhaseView::RemovingTarget,
            Phase::Renaming(retries) => PhaseView::Renaming(*retries),
            Phase::Waiting(retries) => PhaseView::Waiting(*retries),
            Phase::Succeeded => PhaseView::Succeeded,
            Phase::Failed(e) => PhaseView::Failed(e@),
        }
    }
}

/// What looking at the target's place found.
#[derive(Clone, Copy, PartialEq, Eq, Structural, Debug)]
pub enum Found {
    /// Nothing is there.
    Nothing,
    /// The compressed file itself is there: the two paths lead to one file.
    CompressedFile,
    /// Something else than the compressed file is there.
    AnotherFile,
    /// Something is there, and whether it is the compressed file cannot be told.
    Unsure,
}

/// How the operation that was asked for went.
pub enum Event {
    /// The size of the measured file.
    Measured(u64),
    /// The file to measure could not be read.
    NotMeasured,
    /// The original is in the Recycle Bin.
    Recycled,
    /// The original could not be moved to the Recycle Bin, for this reason.
    NotRecycled(String),
    /// What is in the target's place.
    Checked(Found),
    /// The file in the target's place is gone.
    Removed,
    /// The file in the target's place could not be removed, for this reason.
    NotRemoved(String),
    /// The compressed file is in place.
    Renamed,
    /// The compressed file could not be moved: the system's error number, if
    /// there is one, and the reason.
    NotRenamed(Option<i32>, String),
    /// The waiting time is over.
    Waited,
}

/// The contents of an [`Event`].
pub enum EventView {
    Measured(u64),
    NotMeasured,
    Recycled,
    NotRecycled(Seq<char>),
    Checked(Found),
    Removed,
    NotRemoved(Seq<char>),
    Renamed,
    NotRenamed(Option<i32>, Seq<char>),
    Waited,
}

impl View for Event {
    type V = EventView;

    open spec fn view(&self) -> EventView {
        match self {
            Event::Measured(size) => EventView::Measured(*size),
            Event::NotMeasured => EventView::NotMeasured,
            Event::Recycled => EventView::Recycled,
            Event::NotRecycled(text) => EventView::NotRecycled(text@),
            Event::Checked(found) => EventView::Checked(*found),
            Event::Removed => EventView::Removed,
            Event::NotRemoved(text) => EventView::NotRemoved(text@),
            Event::Renamed => EventView::Renamed,
            Event::NotRenamed(code, text) => EventView::NotRenamed(*code, text@),
            Event::Waited => EventView::Waited,
        }
    }
}

/// What is to be done next.
pub enum Action {
    /// Read the size of this file.
    Measure(String),
    /// Move this file to the Recycle Bin.
    Recycle(String),
    /// See what is at the second path, and whether it is the file at the first.
    Check(String, String),
    /// Remove this file.
    Remove(String),
    /// Move the first path to the second.
    Rename(String, String),
    /// Wait for this many milliseconds.
    Wait(u64),
    /// Nothing: this is the outcome.
    Finish(Result<String, AppError>),
}

/// The contents of an [`Action`].
pub enum ActionView {
    Measure(Seq<char>),
    Recycle(Seq<char>),
    Check(Seq<char>, Seq<char>),
    Remove(Seq<char>),
    Rename(Seq<char>, Seq<char>),
    Wait(u64),
    Finish(Result<Seq<char>, error::AppErrorView>),
}

impl View for Action {
    type V = ActionView;

    open spec fn view(&self) -> ActionView {
        match self {
            Action::Measure(path) => ActionView::Measure(path@),
            Action::Recycle(path) => ActionView::Recycle(path@),
            Action::Check(file, path) => ActionView::Check(file@, path@),
            Action::Remove(path) => ActionView::Remove(path@),
            Action::Rename(from, to) => ActionView::Rename(from@, to@),
            Action::Wait(millis) => ActionView::Wait(*millis),
            Action::Finish(Ok(path)) => ActionView::Finish(Ok(path@)),
            Action::Finish(Err(e)) => ActionView::Finish(Err(e@)),
        }
    }
}

/// The replacement of one file: both paths, and how far it has come.
pub struct Replacement {
    pub compressed: String,
    pub original: String,
    pub phase: Phase,
}

/// The contents of a [`Replacement`].
pub struct ReplacementView {
    pub compressed: Seq<char>,
    pub original: Seq<char>,
    pub phase: PhaseView,
}

impl View for Replacement {
    type V = ReplacementView;

    open spec fn view(&self) -> ReplacementView {
        ReplacementView {
            compressed: self.compressed@,
            original: self.original@,
            phase: self.phase@,
        }
    }
}

/// The refusal when the compressed file is not smaller.
pub open spec fn not_smaller() -> error::AppErrorView {
    error::AppErrorView::Other(
        "Compressed file is not smaller than the original → refusing to replace"@,
    )
}

impl ReplacementView {
    /// A replacement of which nothing is done yet.
    pub open spec fn start(compressed: Seq<char>, original: Seq<char>) -> ReplacementView {
        ReplacementView { compressed, original, phase: PhaseView::MeasuringCompressed }
    }

    /// Where the compressed file goes.
    pub open spec fn target(self) -> Seq<char> {
        fs_bridge::replace_target(self.original, self.compressed)
    }

    /// What is to be done next.
    pub open spec fn action(self) -> ActionView {
        match self.phase {
            PhaseView::MeasuringCompressed => ActionView::Measure(self.compressed),
            PhaseView::MeasuringOriginal(_) => ActionView::Measure(self.original),
            PhaseView::RecyclingOriginal => ActionView::Recycle(self.original),
            PhaseView::CheckingTarget => ActionView::Check(self.compressed, self.target()),
            PhaseView::RemovingTarget => ActionView::Remove(self.target()),
            PhaseView::Renaming(_) => ActionView::Rename(self.compressed, self.target()),
            PhaseView::Waiting(_) => ActionView::Wait(RETRY_WAIT_MILLIS),
            PhaseView::Succeeded => ActionView::Finish(Ok(self.target())),
            PhaseView::Failed(e) => ActionView::Finish(Err(e)),
        }
    }

    /// The phase once the original is gone. A compressed file that has the target's
    /// path already stays there.
    pub open spec fn phase_after_recycling(self) -> PhaseView {
        if self.target() == self.compressed {
            PhaseView::Succeeded
        } else {
            PhaseView::CheckingTarget
        }
    }

    /// The phase after an event. An event that is no answer to the action changes
    /// nothing.
    pub open spec fn phase_after(self, event: EventView) -> PhaseView {
        match (self.phase, event) {
            (PhaseView::MeasuringCompressed, EventView::Measured(size)) =>
                PhaseView::MeasuringOriginal(size),
            (PhaseView::MeasuringCompressed, EventView::NotMeasured) => PhaseView::Failed(
                error::AppErrorView::PathDoesNotExist(self.compressed),
            ),
            (PhaseView::MeasuringOriginal(compressed_size), EventView::Measured(size)) =>
                if compressed_size >= size {
                    PhaseView::Failed(not_smaller())
                } else {
                    PhaseView::RecyclingOriginal
                },
            (PhaseView::MeasuringOriginal(_), EventView::NotMeasured) => PhaseView::Failed(
                error::AppErrorView::PathDoesNotExist(self.original),
            ),
            (PhaseView::RecyclingOriginal, EventView::Recycled) => self.phase_after_recycling(),
            (PhaseView::RecyclingOriginal, EventView::NotRecycled(text)) => PhaseView::Failed(
                error::AppErrorView::Other("Failed to move original to Recycle Bin: "@ + text),
            ),
            (PhaseView::CheckingTarget, EventView::Checked(found)) => if found is AnotherFile {
                PhaseView::RemovingTarget
            } else {
                PhaseView::Renaming(RENAME_RETRIES)
            },
            (PhaseView::RemovingTarget, EventView::Removed) => PhaseView::Renaming(RENAME_RETRIES),
            (PhaseView::RemovingTarget, EventView::NotRemoved(text)) => PhaseView::Failed(
                error::AppErrorView::Io(text),
            ),
            (PhaseView::Renaming(_), EventView::Renamed) => PhaseView::Succeeded,
            (PhaseView::Renaming(retries), EventView::NotRenamed(code, text)) => if code == Some(
                SHARING_VIOLATION,
            ) && retries > 0 {
                PhaseView::Waiting(retries)
            } else {
                PhaseView::Failed(
                    error::AppErrorView::Other("Failed to move compressed file: "@ + text),
                )
            },
            (PhaseView::Waiting(retries), EventView::Waited) => PhaseView::Renaming(
                (retries - 1) as u8,
            ),
            (phase, _) => phase,
        }
    }

    /// The replacement after an event.
    pub open spec fn after(self, event: EventView) -> ReplacementView {
        ReplacementView { phase: self.phase_after(event), ..self }
    }

    /// The replacement after a row of events.
    pub open spec fn after_all(self, events: Seq<EventView>) -> ReplacementView
        decreases events.len(),
    {
        if events.len() == 0 {
            self
        } else {
            self.after_all(events.drop_last()).after(events.last())
        }
    }

    /// Retries are only ever counted down, and never below zero. What is at the target
    /// is looked at and removed only where the compressed file has another path.
    pub open spec fn well_formed(self) -> bool {
        match self.phase {
            PhaseView::CheckingTarget => self.target() != self.compressed,
            PhaseView::RemovingTarget => self.target() != self.compressed,
            PhaseView::Renaming(retries) => retries <= RENAME_RETRIES,
            PhaseView::Waiting(retries) => 0 < retries <= RENAME_RETRIES,
            _ => true,
        }
    }
}

/// Replace the original file with a compressed one.
/// Moves the original to the Recycle Bin (aborting on failure), then renames
/// `compressed_path` onto the original's path (same stem + new extension when
/// the container format changed). The outcome is the final output path.
/// Refuses when `compressed_path` is missing or not strictly smaller. A compressed
/// file that is in its final place already stays there.
pub fn replace_original(compressed_path: String, original_path: String) -> (out: Replacement)
    ensures
        out@ == ReplacementView::start(compressed_path@, original_path@),
        out@.well_formed(),
{
    Replacement {
        compressed: compressed_path,
        original: original_path,
        phase: Phase::MeasuringCompressed,
    }
}

impl Replacement {
    /// What is to be done next.
    pub fn action(&self) -> (action: Action)
        ensures
            action@ == self@.action(),
    {
        match &self.phase {
            Phase::MeasuringCompressed => Action::Measure(self.compressed.clone()),
            Phase::MeasuringOriginal(_) => Action::Measure(self.original.clone()),
            Phase::RecyclingOriginal => Action::Recycle(self.original.clone()),
            Phase::CheckingTarget => Action::Check(self.compressed.clone(), self.target()),
            Phase::RemovingTarget => Action::Remove(self.target()),
            Phase::Renaming(_) => Action::Rename(self.compressed.clone(), self.target()),
            Phase::Waiting(_) => Action::Wait(RETRY_WAIT_MILLIS),
            Phase::Succeeded => Action::Finish(Ok(self.target())),
            Phase::Failed(e) => Action::Finish(Err(e.copy())),
        }
    }

    /// Where the compressed file goes.
    pub fn target(&self) -> (target: String)
        ensures
            target@ == self@.target(),
    {
        compute_replace_target(self.original.as_str(), self.compressed.as_str())
    }

    /// Takes note of how the operation went that [`Replacement::action`] asked
    /// for.
    pub fn advance(&mut self, event: Event)
        requires
            old(self)@.well_formed(),
        ensures
            final(self)@ == old(self)@.after(event@),
            final(self)@.well_formed(),
    {
        match event {
            Event::Measured(size) => {
                if let Phase::MeasuringCompressed = self.phase {
                    self.phase = Phase::MeasuringOriginal(size);
                } else if let Phase::MeasuringOriginal(compressed_size) = self.phase {
                    if compressed_size >= size {
                        self.phase = Phase::Failed(
                            AppError::Other(
                                "Compressed file is not smaller than the original → refusing to replace".to_owned(),
                            ),
                        );
                    } else {
                        self.phase = Phase::RecyclingOriginal;
                    }
                }
            },
            Event::NotMeasured => {
                if let Phase::MeasuringCompressed = self.phase {
                    self.phase = Phase::Failed(AppError::PathDoesNotExist(self.compressed.clone()));
                } else if let Phase::MeasuringOriginal(_) = self.phase {
                    self.phase = Phase::Failed(AppError::PathDoesNotExist(self.original.clone()));
                }
            },
            Event::Recycled => {
                if let Phase::RecyclingOriginal = self.phase {
                    let target = self.target();
                    if same_text(target.as_str(), self.compressed.as_str()) {
                        self.phase = Phase::Succeeded;
                    } else {
                        self.phase = Phase::CheckingTarget;
                    }
                }
            },
            Event::NotRecycled(text) => {
                if let Phase::RecyclingOriginal = self.phase {
                    self.phase = Phase::Failed(
                        AppError::Other(
                            "Failed to move original to Recycle Bin: ".to_owned().concat(
                                text.as_str(),
                            ),
                        ),
                    );
                }
            },
            Event::Checked(found) => {
                if let Phase::CheckingTarget = self.phase {
                    if found == Found::AnotherFile {
                        self.phase = Phase::RemovingTarget;
                    } else {
                        self.phase = Phase::Renaming(RENAME_RETRIES);
                    }
                }
            },
            Event::Removed => {
                if let Phase::RemovingTarget = self.phase {
                    self.phase = Phase::Renaming(RENAME_RETRIES);
                }
            },
            Event::NotRemoved(text) => {
                if let Phase::RemovingTarget = self.phase {
                    self.phase = Phase::Failed(AppError::Io(text));
                }
            },
            Event::Renamed => {
                if let Phase::Renaming(_) = self.phase {
                    self.phase = Phase::Succeeded;
                }
            },
            Event::NotRenamed(code, text) => {
                if let Phase::Renaming(retries) = self.phase {
                    let held = match code {
                        Some(code) => code == SHARING_VIOLATION,
                        None => false,
                    };
                    if held && retries > 0 {
                        self.phase = Phase::Waiting(retries);
                    } else {
                        self.phase = Phase::Failed(
                            AppError::Other(
                                "Failed to move compressed file: ".to_owned().concat(text.as_str()),
                            ),
                        );
                    }
                }
            },
            Event::Waited => {
                if let Phase::Waiting(retries) = self.phase {
                    self.phase = Phase::Renaming(retries - 1);
                }
            },
        }
    }
}

/// Event number `at` told that `action`, which was due then, went as `event` says.
pub open spec fn happened(
    start: ReplacementView,
    events: Seq<EventView>,
    at: int,
    action: ActionView,
    event: EventView,
) -> bool {
    &&& 0 <= at < events.len()
    &&& start.after_all(events.take(at)).action() == action
    &&& events[at] == event
}

/// The compressed file was measured, then the original, and the compressed file
/// was the smaller one; both before event number `upto`.
pub open spec fn measured_smaller(
    start: ReplacementView,
    events: Seq<EventView>,
    upto: int,
) -> bool {
    exists|i: int, j: int, small: u64, large: u64|
        0 <= i < j < upto && small < large && #[trigger] happened(
            start,
            events,
            i,
            ActionView::Measure(start.compressed),
            EventView::Measured(small),
        ) && #[trigger] happened(
            start,
            events,
            j,
            ActionView::Measure(start.original),
            EventView::Measured(large),
        )
}

/// The original went to the Recycle Bin after the compressed file had been
/// found to be smaller.
pub open spec fn recycled_after_measuring(start: ReplacementView, events: Seq<EventView>) -> bool {
    exists|k: int| #[trigger]
        happened(start, events, k, ActionView::Recycle(start.original), EventView::Recycled)
            && measured_smaller(start, events, k)
}

/// The original is moved to the Recycle Bin only once the compressed file has
/// been measured as strictly smaller. Whatever is at the target is removed, and
/// the compressed file moved there, only once the original is in the Recycle
/// Bin: it is never deleted outright.
pub proof fn original_is_safe(compressed: Seq<char>, original: Seq<char>, events: Seq<EventView>)
    ensures
        ({
            let start = ReplacementView::start(compressed, original);
            let action = start.after_all(events).action();
            &&& action is Recycle ==> measured_smaller(start, events, events.len() as int)
            &&& action is Remove ==> recycled_after_measuring(start, events)
            &&& action is Rename ==> recycled_after_measuring(start, events)
            &&& (action matches ActionView::Finish(result) && result is Ok)
                ==> recycled_after_measuring(start, events)
        }),
{
    history_justifies_phase(compressed, original, events);
}

/// What has happened stays in a history that goes on.
proof fn history_goes_on(
    start: ReplacementView,
    events: Seq<EventView>,
    at: int,
    action: ActionView,
    event: EventView,
)
    requires
        events.len() > 0,
        happened(start, events.drop_last(), at, action, event),
    ensures
        happened(start, events, at, action, event),
{
    assert(events.drop_last().take(at) =~= events.take(at));
}

/// A measurement stays in a history that goes on.
proof fn measurement_goes_on(start: ReplacementView, events: Seq<EventView>, upto: int)
    requires
        events.len() > 0,
        measured_smaller(start, events.drop_last(), upto),
    ensures
        measured_smaller(start, events, upto),
{
    let front = events.drop_last();
    let (i, j, small, large) = choose|i: int, j: int, small: u64, large: u64|
        0 <= i < j < upto && small < large && #[trigger] happened(
            start,
            front,
            i,
            ActionView::Measure(start.compressed),
            EventView::Measured(small),
        ) && #[trigger] happened(
            start,
            front,
            j,
            ActionView::Measure(start.original),
            EventView::Measured(large),
        );
    history_goes_on(
        start,
        events,
        i,
        ActionView::Measure(start.compressed),
        EventView::Measured(small),
    );
    history_goes_on(
        start,
        events,
        j,
        ActionView::Measure(start.original),
        EventView::Measured(large),
    );
}

/// What must have happened for a replacement to be where it is.
proof fn history_justifies_phase(
    compressed: Seq<char>,
    original: Seq<char>,
    events: Seq<EventView>,
)
    ensures
        ({
            let start = ReplacementView::start(compressed, original);
            let now = start.after_all(events);
            &&& now.compressed == compressed
            &&& now.original == original
            &&& now.phase matches PhaseView::MeasuringOriginal(size) ==> exists|i: int| #[trigger]
                happened(
                    start,
                    events,
                    i,
                    ActionView::Measure(compressed),
                    EventView::Measured(size),
                )
            &&& now.phase is RecyclingOriginal ==> measured_smaller(
                start,
                events,
                events.len() as int,
            )
            &&& (now.phase is CheckingTarget || now.phase is RemovingTarget || now.phase is Renaming
                || now.phase is Waiting || now.phase is Succeeded) ==> recycled_after_measuring(
                start,
                events,
            )
        }),
    decreases events.len(),
{
    if events.len() > 0 {
        let start = ReplacementView::start(compressed, original);
        let front = events.drop_last();
        let n = front.len() as int;
        history_justifies_phase(compressed, original, front);
        let before = start.after_all(front);
        let now = start.after_all(events);
        let event = events.last();
        assert(events.take(n) =~= front);
        assert(happened(start, events, n, before.action(), event));
        if before.phase is MeasuringOriginal {
            let size = before.phase->MeasuringOriginal_0;
            let i = choose|i: int| #[trigger]
                happened(
                    start,
                    front,
                    i,
                    ActionView::Measure(compressed),
                    EventView::Measured(size),
                );
            history_goes_on(
                start,
                events,
                i,
                ActionView::Measure(compressed),
                EventView::Measured(size),
            );
            if now.phase is RecyclingOriginal {
                assert(happened(
                    start,
                    events,
                    n,
                    ActionView::Measure(start.original),
                    EventView::Measured(event->Measured_0),
                ));
                assert(happened(
                    start,
                    events,
                    i,
                    ActionView::Measure(start.compressed),
                    EventView::Measured(size),
                ));
            }
        } else if before.phase is RecyclingOriginal {
            measurement_goes_on(start, events, n);
            assert(measured_smaller(start, events, n + 1));
            if event is Recycled {
                assert(happened(
                    start,
                    events,
                    n,
                    ActionView::Recycle(start.original),
                    EventView::Recycled,
                ));
            }
        } else if before.phase is MeasuringCompressed {
            if now.phase is MeasuringOriginal {
                assert(happened(
                    start,
                    events,
                    n,
                    ActionView::Measure(compressed),
                    EventView::Measured(now.phase->MeasuringOriginal_0),
                ));
            }
        } else if recycled_after_measuring(start, front) {
            let k = choose|k: int| #[trigger]
                happened(start, front, k, ActionView::Recycle(original), EventView::Recycled)
                    && measured_smaller(start, front, k);
            history_goes_on(start, events, k, ActionView::Recycle(original), EventView::Recycled);
            measurement_goes_on(start, events, k);
        }
    }
}

/// A compressed file that is not smaller is refused, and nothing is touched.
pub proof fn not_smaller_is_refused(
    compressed: Seq<char>,
    original: Seq<char>,
    compressed_size: u64,
    original_size: u64,
)
    requires
        compressed_size >= original_size,
    ensures
        ReplacementView::start(compressed, original).after(
            EventView::Measured(compressed_size),
        ).after(EventView::Measured(original_size)).action() == ActionView::Finish(
            Err(not_smaller()),
        ),
{
}

/// Once a replacement has its outcome, no event changes it.
pub proof fn outcome_is_final(replacement: ReplacementView, event: EventView)
    requires
        replacement.action() is Finish,
    ensures
        replacement.after(event) == replacement,
{
}

/// A replacement that succeeds ends with the target's path, and the compressed file
/// is there: it was moved there, or it was there when the original was recycled.
pub proof fn success_is_the_target(replacement: ReplacementView, event: EventView)
    requires
        !(replacement.action() is Finish),
        replacement.after(event).action() matches ActionView::Finish(result) && result is Ok,
    ensures
        ({
            let target = fs_bridge::replace_target(replacement.original, replacement.compressed);
            ||| replacement.action() == ActionView::Rename(replacement.compressed, target) && event
                == EventView::Renamed
            ||| replacement.action() == ActionView::Recycle(replacement.original) && event
                == EventView::Recycled && target == replacement.compressed
        }),
        replacement.after(event).action() == ActionView::Finish(
            Ok(fs_bridge::replace_target(replacement.original, replacement.compressed)),
        ),
{
}

/// The compressed file is never removed: what is removed has another path, and was
/// looked at before and found to be another file than the compressed one.
pub proof fn compressed_file_is_never_removed(
    compressed: Seq<char>,
    original: Seq<char>,
    events: Seq<EventView>,
)
    ensures
        ReplacementView::start(compressed, original).after_all(events).action()
            != ActionView::Remove(compressed),
        ReplacementView::start(compressed, original).after_all(events).action() matches
            ActionView::Remove(path) ==> found_another_file(
            ReplacementView::start(compressed, original),
            events,
            path,
        ),
    decreases events.len(),
{
    let start = ReplacementView::start(compressed, original);
    every_state_is_well_formed(compressed, original, events);
    if events.len() > 0 && start.after_all(events).action() is Remove {
        let front = events.drop_last();
        let n = front.len() as int;
        let path = start.after_all(events).target();
        every_state_is_well_formed(compressed, original, front);
        compressed_file_is_never_removed(compressed, original, front);
        assert(events.take(n) =~= front);
        let check = ActionView::Check(compressed, path);
        let answer = EventView::Checked(Found::AnotherFile);
        if start.after_all(front).action() is Remove {
            let k = choose|k: int| #[trigger] happened(start, front, k, check, answer);
            history_goes_on(start, events, k, check, answer);
        } else {
            assert(happened(start, events, n, check, answer));
        }
    }
}

/// The look at `path` told that another file than the compressed one is there.
pub open spec fn found_another_file(
    start: ReplacementView,
    events: Seq<EventView>,
    path: Seq<char>,
) -> bool {
    exists|k: int| #[trigger]
        happened(
            start,
            events,
            k,
            ActionView::Check(start.compressed, path),
            EventView::Checked(Found::AnotherFile),
        )
}

/// A replacement stays well formed, and keeps its two paths.
pub proof fn every_state_is_well_formed(
    compressed: Seq<char>,
    original: Seq<char>,
    events: Seq<EventView>,
)
    ensures
        ReplacementView::start(compressed, original).after_all(events).well_formed(),
        ReplacementView::start(compressed, original).after_all(events).compressed == compressed,
        ReplacementView::start(compressed, original).after_all(events).original == original,
    decreases events.len(),
{
    if events.len() > 0 {
        every_state_is_well_formed(compressed, original, events.drop_last());
    }
}

/// A compressed file that has the target's path already stays where it is: once the
/// original is recycled, the replacement is done.
pub proof fn compressed_file_at_the_target_stays(
    compressed: Seq<char>,
    original: Seq<char>,
    compressed_size: u64,
    original_size: u64,
)
    requires
        compressed_size < original_size,
        fs_bridge::replace_target(original, compressed) == compressed,
    ensures
        ReplacementView::start(compressed, original).after(
            EventView::Measured(compressed_size),
        ).after(EventView::Measured(original_size)).after(EventView::Recycled).action()
            == ActionView::Finish(Ok(compressed)),
{
}

/// An event that answers the action.
pub open spec fn answers(event: EventView, action: ActionView) -> bool {
    match action {
        ActionView::Measure(_) => event is Measured || event is NotMeasured,
        ActionView::Recycle(_) => event is Recycled || event is NotRecycled,
        ActionView::Check(_, _) => event is Checked,
        ActionView::Remove(_) => event is Removed || event is NotRemoved,
        ActionView::Rename(_, _) => event is Renamed || event is NotRenamed,
        ActionView::Wait(_) => event is Waited,
        ActionView::Finish(_) => false,
    }
}

/// How many more operations a replacement can ask for at most.
pub open spec fn operations_left(phase: PhaseView) -> int {
    match phase {
        PhaseView::MeasuringCompressed => 2 * RENAME_RETRIES + 6,
        PhaseView::MeasuringOriginal(_) => 2 * RENAME_RETRIES + 5,
        PhaseView::RecyclingOriginal => 2 * RENAME_RETRIES + 4,
        PhaseView::CheckingTarget => 2 * RENAME_RETRIES + 3,
        PhaseView::RemovingTarget => 2 * RENAME_RETRIES + 2,
        PhaseView::Renaming(retries) => 2 * retries + 1,
        PhaseView::Waiting(retries) => 2 * retries,
        PhaseView::Succeeded => 0,
        PhaseView::Failed(_) => 0,
    }
}

/// Every answer brings the end nearer: a rename is tried again at most five
/// times, and a replacement asks for sixteen operations at most.
pub proof fn every_answer_makes_progress(replacement: ReplacementView, event: EventView)
    requires
        replacement.well_formed(),
        answers(event, replacement.action()),
    ensures
        replacement.after(event).well_formed(),
        0 <= operations_left(replacement.after(event).phase) < operations_left(replacement.phase)
            <= 16,
{
}

/// A compressed file that is smaller, by however little, replaces the original,
/// whatever the target is: the original is recycled, and once nothing is in the way
/// and the compressed file is renamed, the outcome is the target.
pub proof fn smaller_file_replaces_the_original(
    compressed: Seq<char>,
    original: Seq<char>,
    compressed_size: u64,
    original_size: u64,
    found: Found,
)
    requires
        compressed_size < original_size,
    ensures
        ({
            let target = fs_bridge::replace_target(original, compressed);
            let start = ReplacementView::start(compressed, original);
            let first = start.after(EventView::Measured(compressed_size));
            let measured = first.after(EventView::Measured(original_size));
            let recycled = measured.after(EventView::Recycled);
            let checked = recycled.after(EventView::Checked(found));
            let removed = checked.after(EventView::Removed);
            &&& start.action() == ActionView::Measure(compressed)
            &&& first.action() == ActionView::Measure(original)
            &&& measured.action() == ActionView::Recycle(original)
            &&& target == compressed ==> recycled.action() == ActionView::Finish(Ok(compressed))
            &&& target != compressed ==> recycled.action() == ActionView::Check(compressed, target)
            &&& target != compressed && found == Found::AnotherFile ==> checked.action()
                == ActionView::Remove(target)
            &&& target != compressed && found != Found::AnotherFile ==> checked.action()
                == ActionView::Rename(compressed, target)
            &&& target != compressed ==> removed.action() == ActionView::Rename(compressed, target)
            &&& removed.after(EventView::Renamed).action() == ActionView::Finish(Ok(target))
            &&& found != Found::AnotherFile ==> checked.after(EventView::Renamed).action()
                == ActionView::Finish(Ok(target))
        }),
{
}

/// Which of the two sizes is the larger decides, and nothing else: other paths and
/// other sizes in the same order lead to the same kind of action.
pub proof fn only_the_order_of_sizes_decides(
    a: ReplacementView,
    b: ReplacementView,
    small: u64,
    large: u64,
    other_small: u64,
    other_large: u64,
)
    requires
        a.phase is MeasuringCompressed,
        b.phase is MeasuringCompressed,
        (small < large) == (other_small < other_large),
    ensures
        a.after(EventView::Measured(small)).after(EventView::Measured(large)).phase == b.after(
            EventView::Measured(other_small),
        ).after(EventView::Measured(other_large)).phase,
{
}

/// A file that cannot be measured is reported as missing, by its own path.
pub proof fn missing_file_is_named(compressed: Seq<char>, original: Seq<char>, size: u64)
    ensures
        ReplacementView::start(compressed, original).after(EventView::NotMeasured).action()
            == ActionView::Finish(Err(error::AppErrorView::PathDoesNotExist(compressed))),
        ReplacementView::start(compressed, original).after(EventView::Measured(size)).after(
            EventView::NotMeasured,
        ).action() == ActionView::Finish(Err(error::AppErrorView::PathDoesNotExist(original))),
{
}

/// A failure ends the replacement with the reason that was given, whatever it is.
pub proof fn failures_give_their_reason(
    replacement: ReplacementView,
    reason: Seq<char>,
    code: Option<i32>,
)
    requires
        replacement.well_formed(),
    ensures
        replacement.action() is Recycle ==> replacement.after(
            EventView::NotRecycled(reason),
        ).action() == ActionView::Finish(
            Err(
                error::AppErrorView::Other("Failed to move original to Recycle Bin: "@ + reason),
            ),
        ),
        replacement.action() is Remove ==> replacement.after(
            EventView::NotRemoved(reason),
        ).action() == ActionView::Finish(Err(error::AppErrorView::Io(reason))),
        replacement.action() is Rename && code != Some(32i32) ==> replacement.after(
            EventView::NotRenamed(code, reason),
        ).action() == ActionView::Finish(
            Err(error::AppErrorView::Other("Failed to move compressed file: "@ + reason)),
        ),
{
}

/// Each held rename and the wait after it: the file was held, and was waited for.
pub open spec fn are_held_rounds(rounds: Seq<EventView>) -> bool {
    &&& rounds.len() % 2 == 0
    &&& forall|i: int|
        0 <= i < rounds.len() ==> (if i % 2 == 0 {
            #[trigger] rounds[i] matches EventView::NotRenamed(code, _) && code == Some(32i32)
        } else {
            rounds[i] == EventView::Waited
        })
}

/// A held file is tried again five times, each time after a tenth of a second, and
/// the sixth failure is the outcome. Let go before, it is renamed.
pub proof fn held_file_is_tried_six_times(
    checked: ReplacementView,
    rounds: Seq<EventView>,
    reason: Seq<char>,
)
    requires
        checked.phase == (PhaseView::Renaming(5)),
        are_held_rounds(rounds),
        rounds.len() <= 10,
    ensures
        ({
            let now = checked.after_all(rounds);
            &&& now.action() == ActionView::Rename(checked.compressed, checked.target())
            &&& now.after(EventView::Renamed).action() == ActionView::Finish(Ok(checked.target()))
            &&& rounds.len() < 10 ==> now.after(
                EventView::NotRenamed(Some(32i32), reason),
            ).action() == ActionView::Wait(100)
            &&& rounds.len() == 10 ==> now.after(
                EventView::NotRenamed(Some(32i32), reason),
            ).action() == ActionView::Finish(
                Err(error::AppErrorView::Other("Failed to move compressed file: "@ + reason)),
            )
        }),
{
    held_rounds_count_down(checked, rounds);
}

proof fn held_rounds_count_down(checked: ReplacementView, rounds: Seq<EventView>)
    requires
        checked.phase == (PhaseView::Renaming(5)),
        are_held_rounds(rounds),
        rounds.len() <= 10,
    ensures
        checked.after_all(rounds).phase matches PhaseView::Renaming(left) && left == 5
            - rounds.len() / 2,
        checked.after_all(rounds).compressed == checked.compressed,
        checked.after_all(rounds).original == checked.original,
    decreases rounds.len(),
{
    if rounds.len() > 0 {
        let one = rounds.drop_last();
        let two = one.drop_last();
        let n = rounds.len() as int;
        assert(rounds[n - 2] matches EventView::NotRenamed(code, _) && code == Some(32i32));
        assert(rounds[n - 1] == EventView::Waited);
        assert forall|i: int| 0 <= i < two.len() implies (if i % 2 == 0 {
            #[trigger] two[i] matches EventView::NotRenamed(code, _) && code == Some(32i32)
        } else {
            two[i] == EventView::Waited
        }) by {
            assert(two[i] == rounds[i]);
        }
        held_rounds_count_down(checked, two);
        assert(one.last() == rounds[n - 2]);
        assert(checked.after_all(one) == checked.after_all(two).after(one.last()));
        assert(checked.after_all(rounds) == checked.after_all(one).after(rounds.last()));
    }
}

/// A check that finds no other file leads to the rename, with five more tries.
pub proof fn rename_starts_with_five_more_tries(replacement: ReplacementView, found: Found)
    ensures
        replacement.action() is Check && found != Found::AnotherFile ==> replacement.after(
            EventView::Checked(found),
        ).phase == PhaseView::Renaming(5),
        replacement.action() is Remove ==> replacement.after(EventView::Removed).phase
            == PhaseView::Renaming(5),
{
}

/// An event that answers another question than the one asked changes nothing.
pub proof fn other_answers_change_nothing(replacement: ReplacementView, event: EventView)
    requires
        !answers(event, replacement.action()),
    ensures
        replacement.after(event) == replacement,
{
}

/// The two paths of a replacement never change, and where it goes is told by them.
pub proof fn paths_stay(replacement: ReplacementView, event: EventView)
    ensures
        replacement.after(event).compressed == replacement.compressed,
        replacement.after(event).original == replacement.original,
        replacement.after(event).target() == fs_bridge::replace_target(
            replacement.original,
            replacement.compressed,
        ),
{
}

/// What [`replace_original`] and [`Replacement::action`] give: the two paths as they
/// were given, and at first the request to measure the compressed file.
pub proof fn replacement_starts_by_measuring(
    compressed_path: String,
    original_path: String,
    started: Replacement,
    action: Action,
)
    requires
        call_ensures(replace_original, (compressed_path, original_path), started),
        call_ensures(Replacement::action, (&started,), action),
    ensures
        started.compressed@ == compressed_path@,
        started.original@ == original_path@,
        action matches Action::Measure(path) && path@ == compressed_path@,
{
}

/// Each operation names the paths that the replacement was started with.
pub proof fn actions_name_the_paths(replacement: Replacement, action: Action)
    requires
        call_ensures(Replacement::action, (&replacement,), action),
    ensures
        action matches Action::Recycle(path) ==> path@ == replacement.original@,
        action matches Action::Rename(from, to) ==> from@ == replacement.compressed@ && to@
            == fs_bridge::replace_target(replacement.original@, replacement.compressed@),
        action matches Action::Remove(path) ==> path@ == fs_bridge::replace_target(
            replacement.original@,
            replacement.compressed@,
        ),
        action matches Action::Check(file, path) ==> file@ == replacement.compressed@ && path@
            == fs_bridge::replace_target(replacement.original@, replacement.compressed@),
        action matches Action::Finish(Ok(path)) ==> path@ == fs_bridge::replace_target(
            replacement.original@,
            replacement.compressed@,
        ),
        action matches Action::Wait(millis) ==> millis == 100,
        action is Finish <==> replacement.phase is Succeeded || replacement.phase is Failed,
        replacement.phase is Succeeded ==> (action matches Action::Finish(result) && result is Ok),
        replacement.phase matches Phase::Failed(e) ==> (action matches Action::Finish(Err(out))
            && out@ == e@),
{
}

/// What [`Replacement::advance`] makes of a replacement: its paths stay, and its
/// phase is the one that follows the event.
pub proof fn advancing_follows_the_event(replacement: &mut Replacement, event: Event)
    requires
        call_ensures(Replacement::advance, (replacement, event), ()),
    ensures
        final(replacement).compressed@ == old(replacement).compressed@,
        final(replacement).original@ == old(replacement).original@,
        final(replacement)@ == old(replacement)@.after(event@),
        old(replacement).phase matches Phase::MeasuringOriginal(small) ==> (
        event matches Event::Measured(large) ==> {
            &&& small < large ==> final(replacement).phase is RecyclingOriginal
            &&& small >= large ==> (final(replacement).phase matches Phase::Failed(
                AppError::Other(text),
            ) && text@
                == "Compressed file is not smaller than the original → refusing to replace"@)
        }),
        old(replacement).phase is MeasuringCompressed ==> (event matches Event::Measured(size) ==> (
        final(replacement).phase matches Phase::MeasuringOriginal(kept) && kept == size)),
        old(replacement).phase is CheckingTarget ==> (event matches Event::Checked(found) ==> {
            &&& found == Found::AnotherFile ==> final(replacement).phase is RemovingTarget
            &&& found != Found::AnotherFile ==> (final(replacement).phase matches Phase::Renaming(
                left,
            ) && left == 5)
        }),
        old(replacement).phase is Renaming && event is Renamed ==> final(replacement).phase is Succeeded,
        old(replacement).phase is RemovingTarget && event is Removed ==> (
        final(replacement).phase matches Phase::Renaming(left) && left == 5),
        old(replacement).phase matches Phase::Renaming(left) ==> (event matches Event::NotRenamed(
            code,
            reason,
        ) ==> {
            &&& code == Some(32i32) && left > 0 ==> (final(replacement).phase matches Phase::Waiting(
                kept,
            ) && kept == left)
            &&& code != Some(32i32) || left == 0 ==> (final(replacement).phase matches Phase::Failed(
                AppError::Other(text),
            ) && text@ == "Failed to move compressed file: "@ + reason@)
        }),
        old(replacement).phase matches Phase::Waiting(left) ==> (left > 0 && event is Waited ==> (
        final(replacement).phase matches Phase::Renaming(fewer) && fewer == left - 1)),
        old(replacement).phase is RemovingTarget ==> (event matches Event::NotRemoved(reason) ==> (
        final(replacement).phase matches Phase::Failed(AppError::Io(text)) && text@ == reason@)),
        old(replacement).phase is RecyclingOriginal ==> (event matches Event::NotRecycled(reason)
            ==> (final(replacement).phase matches Phase::Failed(AppError::Other(text)) && text@
            == "Failed to move original to Recycle Bin: "@ + reason@)),
        old(replacement).phase is MeasuringCompressed && event is NotMeasured ==> (
        final(replacement).phase matches Phase::Failed(AppError::PathDoesNotExist(path)) && path@
            == old(replacement).compressed@),
        old(replacement).phase is MeasuringOriginal && event is NotMeasured ==> (
        final(replacement).phase matches Phase::Failed(AppError::PathDoesNotExist(path)) && path@
            == old(replacement).original@),
        old(replacement).phase is RecyclingOriginal && event is Recycled ==> ({
            let target = fs_bridge::replace_target(
                old(replacement).original@,
                old(replacement).compressed@,
            );
            &&& target == old(replacement).compressed@ ==> final(replacement).phase is Succeeded
            &&& target != old(replacement).compressed@ ==> final(replacement).phase is CheckingTarget
        }),
{
    assert(final(replacement)@.phase == old(replacement)@.phase_after(event@));
}

/// Where a replacement goes is told by its two paths.
pub proof fn target_is_told_by_the_paths(replacement: Replacement, target: String)
    requires
        call_ensures(Replacement::target, (&replacement,), target),
    ensures
        target@ == fs_bridge::replace_target(replacement.original@, replacement.compressed@),
{
}

} // verus!
