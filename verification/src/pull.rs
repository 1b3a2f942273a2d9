//! Pulling files from a device into the local workspace, each into a
//! subdirectory of its own.

use crate::error;
use crate::error::AppError;
use crate::text;
use crate::text::{chars_of, find_last, text_between};
use crate::winpath;
use crate::winpath::join_paths;
use crate::winpath_laws;
use vstd::prelude::*;
use vstd::string::*;

verus! {

/// A file that was pulled.
pub struct PullResult {
    pub key: String,
    pub local_path: String,
    pub name: String,
    pub size: u64,
    pub remote_path: String,
}

/// The contents of a [`PullResult`].
#[verifier::ext_equal]
pub struct PullResultView {
    pub key: Seq<char>,
    pub local_path: Seq<char>,
    pub name: Seq<char>,
    pub size: u64,
    pub remote_path: Seq<char>,
}

impl View for PullResult {
    type V = PullResultView;

    open spec fn view(&self) -> PullResultView {
        PullResultView {
            key: self.key@,
            local_path: self.local_path@,
            name: self.name@,
            size: self.size,
            remote_path: self.remote_path@,
        }
    }
}

/// What a list of results holds.
pub open spec fn result_views(results: Seq<PullResult>) -> Seq<PullResultView> {
    Seq::new(results.len(), |i: int| results[i]@)
}

/// How one file is to be pulled.
pub struct PullPlan {
    pub key: String,
    /// The directory to create for it.
    pub dest_dir: String,
    pub name: String,
    /// Where it goes.
    pub local_path: String,
    pub remote_path: String,
}

/// The contents of a [`PullPlan`].
#[verifier::ext_equal]
pub struct PullPlanView {
    pub key: Seq<char>,
    pub dest_dir: Seq<char>,
    pub name: Seq<char>,
    pub local_path: Seq<char>,
    pub remote_path: Seq<char>,
}

impl View for PullPlan {
    type V = PullPlanView;

    open spec fn view(&self) -> PullPlanView {
        PullPlanView {
            key: self.key@,
            dest_dir: self.dest_dir@,
            name: self.name@,
            local_path: self.local_path@,
            remote_path: self.remote_path@,
        }
    }
}

/// What a device path has after its last slash; all of it where there is none.
pub open spec fn remote_name(remote: Seq<char>) -> Seq<char> {
    remote.skip(text::last_index_of(remote, '/') + 1)
}

/// The workspace subdirectory for a key.
pub open spec fn pull_dir(workspace: Seq<char>, key: Seq<char>) -> Seq<char> {
    workspace + "\\"@ + key
}

/// How a file is to be pulled into the workspace under a key.
pub open spec fn pull_plan(workspace: Seq<char>, key: Seq<char>, remote: Seq<char>) -> PullPlanView {
    PullPlanView {
        key,
        dest_dir: pull_dir(workspace, key),
        name: remote_name(remote),
        local_path: winpath::join(pull_dir(workspace, key), remote_name(remote)),
        remote_path: remote,
    }
}

/// How a file is to be pulled into the workspace under a key.
pub fn plan_pull(workspace: &str, key: String, remote: String) -> (plan: PullPlan)
    ensures
        plan@ == pull_plan(workspace@, key@, remote@),
{
    let dest_dir = workspace.to_owned().concat("\\").concat(key.as_str());
    let chars = chars_of(remote.as_str());
    proof {
        text::last_index_of_is_last(remote@, '/');
    }
    let start: usize = match find_last(&chars, '/') {
        Some(slash) => slash + 1,
        None => 0,
    };
    let name = text_between(&chars, start, chars.len());
    assert(name@ =~= remote_name(remote@));
    let local_path = join_paths(dest_dir.as_str(), name.as_str());
    PullPlan { key, dest_dir, name, local_path, remote_path: remote }
}

/// A digit or one of `a` to `f`.
pub open spec fn is_hex_digit(c: char) -> bool {
    ('0' <= c <= '9') || ('a' <= c <= 'f')
}

/// A random UUID of version 4 without hyphens, in small letters.
pub open spec fn is_key(key: Seq<char>) -> bool {
    &&& key.len() == 32
    &&& forall|i: int| 0 <= i < 32 ==> is_hex_digit(#[trigger] key[i])
    &&& key[12] == '4'
    &&& (key[16] == '8' || key[16] == '9' || key[16] == 'a' || key[16] == 'b')
}

/// Calls `Uuid::new_v4` of the crate `uuid`, and writes the result with
/// `Uuid::simple`. Claimed of it: the text has the form of such a UUID. Which one
/// it is, chance decides; that it is a new one is not claimed. A system that gives
/// no random bytes makes it panic.
#[verifier::external_body]
fn fresh_key() -> (key: String)
    ensures
        is_key(key@),
{
    uuid::Uuid::new_v4().simple().to_string()
}

/// `key` is one that a draw of [`fresh_key`] gives.
pub closed spec fn is_drawn(key: Seq<char>) -> bool {
    exists|drawn: String| #[trigger] call_ensures(fresh_key, (), drawn) && drawn@ == key
}

/// How pulling one file went.
pub enum PullOutcome {
    /// The directory could not be created, for this reason.
    NoDirectory(String),
    /// The program `adb` was not found.
    NoAdb(AppError),
    /// The program could not be started, for this reason.
    NotStarted(String),
    /// The program reported a failure.
    Failed,
    /// The file is there; its size, where that could be read.
    Pulled(Option<u64>),
}

/// The error that an outcome means, if it means one.
pub open spec fn pull_error(remote: Seq<char>, outcome: PullOutcome) -> Option<
    error::AppErrorView,
> {
    match outcome {
        PullOutcome::NoDirectory(reason) => Some(error::AppErrorView::Io(reason@)),
        PullOutcome::NoAdb(e) => Some(e@),
        PullOutcome::NotStarted(reason) => Some(
            error::AppErrorView::Other("adb pull failed: "@ + reason@),
        ),
        PullOutcome::Failed => Some(
            error::AppErrorView::Other(
                "adb pull 失败："@ + remote + "，请确认设备已连接并启用 USB 调试"@,
            ),
        ),
        PullOutcome::Pulled(_) => None,
    }
}

/// The result for a pulled file. A size that could not be read counts as zero.
pub open spec fn pulled(plan: PullPlanView, size: Option<u64>) -> PullResultView {
    PullResultView {
        key: plan.key,
        local_path: plan.local_path,
        name: plan.name,
        size: match size {
            Some(size) => size,
            None => 0,
        },
        remote_path: plan.remote_path,
    }
}

/// The result of pulling one file, or why there is none.
pub fn finish_pull(plan: PullPlan, outcome: PullOutcome) -> (result: Result<PullResult, AppError>)
    ensures
        match outcome {
            PullOutcome::Pulled(size) => result matches Ok(out) && out@ == pulled(plan@, size),
            _ => result matches Err(e) && Some(e@) == pull_error(plan@.remote_path, outcome),
        },
{
    match outcome {
        PullOutcome::NoDirectory(reason) => Err(AppError::Io(reason)),
        PullOutcome::NoAdb(e) => Err(e),
        PullOutcome::NotStarted(reason) => Err(
            AppError::Other("adb pull failed: ".to_owned().concat(reason.as_str())),
        ),
        PullOutcome::Failed => Err(
            AppError::Other(
                "adb pull 失败：".to_owned().concat(plan.remote_path.as_str()).concat(
                    "，请确认设备已连接并启用 USB 调试",
                ),
            ),
        ),
        PullOutcome::Pulled(size) => {
            let size: u64 = match size {
                Some(size) => size,
                None => 0,
            };
            Ok(
                PullResult {
                    key: plan.key,
                    local_path: plan.local_path,
                    name: plan.name,
                    size,
                    remote_path: plan.remote_path,
                },
            )
        },
    }
}

/// What `adb` is called with to pull a file.
pub fn pull_args(plan: &PullPlan) -> (args: Vec<String>)
    ensures
        text::texts(args@) == seq!["pull"@, plan@.remote_path, plan@.local_path],
{
    let args = vec!["pull".to_owned(), plan.remote_path.clone(), plan.local_path.clone()];
    assert(text::texts(args@) =~= seq!["pull"@, plan@.remote_path, plan@.local_path]);
    args
}

/// Files to pull from a device one after the other, the results so far, and whether
/// a file could not be pulled, which ends the batch.
pub struct PullBatch {
    pub workspace: String,
    pub items: Vec<String>,
    pub results: Vec<PullResult>,
    pub failed: bool,
}

/// The contents of a [`PullBatch`].
pub struct PullBatchView {
    pub workspace: Seq<char>,
    pub items: Seq<Seq<char>>,
    pub results: Seq<PullResultView>,
    pub failed: bool,
}

impl View for PullBatch {
    type V = PullBatchView;

    open spec fn view(&self) -> PullBatchView {
        PullBatchView {
            workspace: self.workspace@,
            items: text::texts(self.items@),
            results: result_views(self.results@),
            failed: self.failed,
        }
    }
}

impl PullBatchView {
    /// The results are those of the first items, in order, each pulled into a
    /// subdirectory of its own key.
    pub open spec fn well_formed(self) -> bool {
        &&& self.results.len() <= self.items.len()
        &&& forall|i: int|
            0 <= i < self.results.len() ==> {
                let result = #[trigger] self.results[i];
                &&& is_key(result.key)
                &&& result == pulled(
                    pull_plan(self.workspace, result.key, self.items[i]),
                    Some(result.size),
                )
            }
    }

    /// Nothing is left to pull: a file could not be pulled, or all were.
    pub open spec fn is_over(self) -> bool {
        self.failed || self.results.len() == self.items.len()
    }

    /// The next file is to be pulled like this.
    pub open spec fn is_next(self, plan: PullPlanView) -> bool {
        &&& !self.failed
        &&& self.results.len() < self.items.len()
        &&& is_key(plan.key)
        &&& plan == pull_plan(self.workspace, plan.key, self.items[self.results.len() as int])
    }
}

/// Pull the files `items` of a device into `workspace`.
pub fn pull_device_files(items: Vec<String>, workspace: String) -> (batch: PullBatch)
    ensures
        batch@.workspace == workspace@,
        batch@.items == text::texts(items@),
        batch@.results == Seq::<PullResultView>::empty(),
        !batch@.failed,
        batch@.well_formed(),
{
    let batch = PullBatch { workspace, items, results: Vec::new(), failed: false };
    assert(batch@.results =~= Seq::empty());
    batch
}

impl PullBatch {
    /// How the next file is to be pulled, or nothing where the batch is over: all
    /// files are done, or one failed. Every call draws another key.
    pub fn next_plan(&self) -> (plan: Option<PullPlan>)
        requires
            self@.well_formed(),
        ensures
            plan is None <==> self@.is_over(),
            plan matches Some(plan) ==> self@.is_next(plan@) && is_drawn(plan@.key),
    {
        let done: usize = self.results.len();
        if !self.failed && done < self.items.len() {
            let draw = fresh_key;
            let key = draw();
            let remote = self.items[done].clone();
            assert(remote@ == self@.items[done as int]);
            Some(plan_pull(self.workspace.as_str(), key, remote))
        } else {
            None
        }
    }

    /// Takes note of how pulling the next file went. The first failure is that of
    /// the whole batch, and ends it.
    pub fn record(&mut self, plan: PullPlan, outcome: PullOutcome) -> (result: Result<(), AppError>)
        requires
            old(self)@.well_formed(),
            old(self)@.is_next(plan@),
        ensures
            final(self)@.well_formed(),
            final(self)@.workspace == old(self)@.workspace,
            final(self)@.items == old(self)@.items,
            match outcome {
                PullOutcome::Pulled(size) => {
                    &&& result is Ok
                    &&& !final(self)@.failed
                    &&& final(self)@.results == old(self)@.results.push(pulled(plan@, size))
                },
                _ => {
                    &&& result matches Err(e)
                    &&& Some(e@) == pull_error(plan@.remote_path, outcome)
                    &&& final(self)@.failed
                    &&& final(self)@.is_over()
                    &&& final(self)@.results == old(self)@.results
                },
            },
    {
        match finish_pull(plan, outcome) {
            Ok(done) => {
                self.results.push(done);
                assert(self@.results =~= old(self)@.results.push(done@));
                Ok(())
            },
            Err(e) => {
                self.failed = true;
                Err(e)
            },
        }
    }
}

/// Files pulled under different keys never lie in each other's way, whatever
/// their names: below their own subdirectories no path of the one is a path of
/// the other.
pub proof fn pulled_files_keep_apart(
    workspace: Seq<char>,
    a: Seq<char>,
    below_a: Seq<char>,
    b: Seq<char>,
    below_b: Seq<char>,
)
    requires
        is_key(a),
        is_key(b),
        a != b,
    ensures
        pull_dir(workspace, a) != pull_dir(workspace, b),
        pull_dir(workspace, a) + "\\"@ + below_a != pull_dir(workspace, b) + "\\"@ + below_b,
{
    reveal_strlit("\\");
    let front = workspace.len() as int + 1;
    let x = pull_dir(workspace, a) + "\\"@ + below_a;
    let y = pull_dir(workspace, b) + "\\"@ + below_b;
    assert(x.subrange(front, front + 32) =~= a);
    assert(y.subrange(front, front + 32) =~= b);
    assert(pull_dir(workspace, a).subrange(front, front + 32) =~= a);
    assert(pull_dir(workspace, b).subrange(front, front + 32) =~= b);
}

/// A name that leads to a place below the directory: it names no drive, does not
/// start at a root and, where the directory is read literally, takes steps down
/// only.
pub open spec fn stays_below(dir: Seq<char>, name: Seq<char>) -> bool {
    &&& winpath::prefix_kind(name) is Plain
    &&& !winpath::has_root(name)
    &&& winpath::is_verbatim(dir) ==> name.len() > 0 && forall|i: int|
        0 <= i < winpath::components(name).len() ==> {
            ||| #[trigger] winpath::components(name)[i] is Name
            ||| winpath::components(name)[i] is Current
        }
}

/// A pulled file lies in the subdirectory of its key, under its own name. Where the
/// workspace is read literally, this takes it and the name to be plainly written.
pub proof fn pulled_file_lies_in_its_directory(
    workspace: Seq<char>,
    key: Seq<char>,
    remote: Seq<char>,
)
    requires
        is_key(key),
        winpath::prefix_kind(remote_name(remote)) is Plain,
        !winpath::has_root(remote_name(remote)),
        winpath::is_verbatim(pull_dir(workspace, key)) && remote_name(remote).len() > 0 ==> {
            &&& winpath_laws::is_plainly_written(pull_dir(workspace, key))
            &&& winpath_laws::is_plainly_written(remote_name(remote))
            &&& winpath_laws::are_names(winpath::components(remote_name(remote)))
        },
    ensures
        pull_plan(workspace, key, remote).local_path == pull_dir(workspace, key) + "\\"@
            + remote_name(remote),
{
    reveal_strlit("\\");
    let dir = pull_dir(workspace, key);
    assert(dir.last() == key[31]);
    assert("\\"@ =~= seq!['\\']);
    if winpath::is_verbatim(dir) && remote_name(remote).len() > 0 {
        winpath_laws::literal_join_is_plain(dir, remote_name(remote));
    }
}

/// The subdirectory of a key is plainly written where the workspace is, is read
/// literally and does not end in a separator.
pub proof fn literal_pull_dir_is_plain(workspace: Seq<char>, key: Seq<char>)
    requires
        is_key(key),
        winpath::is_verbatim(workspace),
        winpath_laws::is_plainly_written(workspace),
        !winpath::is_sep(workspace.last()),
    ensures
        winpath::is_verbatim(pull_dir(workspace, key)),
        winpath_laws::is_plainly_written(pull_dir(workspace, key)),
{
    reveal_strlit("\\");
    assert("\\"@ =~= seq!['\\']);
    assert(seq!['.'].len() != key.len() && seq!['.', '.'].len() != key.len());
    assert(winpath_laws::is_simple_name(key));
    winpath_laws::literal_folder_stays_plain(workspace, key);
}

/// Files pulled under different keys go to different places.
pub proof fn pulled_files_never_collide(
    workspace: Seq<char>,
    a: Seq<char>,
    remote_a: Seq<char>,
    b: Seq<char>,
    remote_b: Seq<char>,
)
    requires
        is_key(a),
        is_key(b),
        a != b,
        stays_below(pull_dir(workspace, a), remote_name(remote_a)),
        stays_below(pull_dir(workspace, b), remote_name(remote_b)),
    ensures
        pull_plan(workspace, a, remote_a).local_path != pull_plan(
            workspace,
            b,
            remote_b,
        ).local_path,
{
    reveal_strlit("\\");
    let p = pull_dir(workspace, a);
    let q = pull_dir(workspace, b);
    let front = workspace.len() as int + 1;
    assert(p.skip(front) =~= a);
    assert(q.skip(front) =~= b);
    assert forall|i: int| front <= i < p.len() implies is_hex_digit(#[trigger] p[i]) by {
        assert(p[i] == a[i - front]);
    }
    assert forall|i: int| front <= i < q.len() implies is_hex_digit(#[trigger] q[i]) by {
        assert(q[i] == b[i - front]);
    }
    assert(same_but_key(p, q, front));
    same_mark(p, q, front);
    if winpath::is_verbatim(p) {
        let x = winpath::render(winpath::components(p));
        let y = winpath::render(winpath::components(q));
        literal_paths_end_in_key(p, q, front);
        steps_down_extend(winpath::components(p), winpath::components(remote_name(remote_a)));
        steps_down_extend(winpath::components(q), winpath::components(remote_name(remote_b)));
        let n = x.len() as int;
        assert(winpath::join(p, remote_name(remote_a)).take(n) == x);
        assert(winpath::join(q, remote_name(remote_b)).take(n) == y);
    } else {
        pulled_file_lies_in_its_directory(workspace, a, remote_a);
        pulled_file_lies_in_its_directory(workspace, b, remote_b);
        pulled_files_keep_apart(
            workspace,
            a,
            remote_name(remote_a),
            b,
            remote_name(remote_b),
        );
    }
}

/// Two paths that are the same up to a separator and have a key after it.
spec fn same_but_key(p: Seq<char>, q: Seq<char>, front: int) -> bool {
    &&& 0 < front
    &&& p.len() == front + 32
    &&& q.len() == front + 32
    &&& p[front - 1] == '\\'
    &&& forall|i: int| 0 <= i < front ==> #[trigger] p[i] == q[i]
    &&& forall|i: int| front <= i < p.len() ==> is_hex_digit(#[trigger] p[i])
    &&& forall|i: int| front <= i < q.len() ==> is_hex_digit(#[trigger] q[i])
}

/// Whether such paths are read literally does not depend on the key.
proof fn same_mark(p: Seq<char>, q: Seq<char>, front: int)
    requires
        same_but_key(p, q, front),
    ensures
        winpath::has_verbatim_mark(p) == winpath::has_verbatim_mark(q),
        winpath::has_verbatim_mark(p) ==> front >= 4,
{
    if front < 4 {
        assert(is_hex_digit(p[3]) && is_hex_digit(q[3]));
    } else {
        assert(p[0] == q[0] && p[1] == q[1] && p[2] == q[2] && p[3] == q[3]);
    }
}

/// In such paths the next separator does not depend on the key; it comes before
/// the key, or there is none.
proof fn same_next_sep(p: Seq<char>, q: Seq<char>, front: int, from: int)
    requires
        same_but_key(p, q, front),
        0 <= from <= p.len(),
    ensures
        winpath::next_sep(p, from, true) == winpath::next_sep(q, from, true),
        from >= front ==> winpath::next_sep(p, from, true) == p.len(),
        from < front ==> {
            let end = winpath::next_sep(p, from, true);
            from <= end < front && winpath::is_sep(p[end])
        },
    decreases p.len() - from,
{
    if from < front {
        assert(p[from] == q[from]);
        if !winpath::separates(p[from], true) {
            same_next_sep(p, q, front, from + 1);
        }
    } else if from < p.len() {
        assert(is_hex_digit(p[from]) && is_hex_digit(q[from]));
        same_next_sep(p, q, front, from + 1);
    }
}

/// Such paths, read literally, have prefixes of the same length: one that ends
/// before a separator, or the whole path.
proof fn same_prefix(p: Seq<char>, q: Seq<char>, front: int)
    requires
        same_but_key(p, q, front),
        winpath::is_verbatim(p),
    ensures
        winpath::prefix_len(p) == winpath::prefix_len(q),
        winpath::prefix_len(p) == p.len() || {
            &&& 0 < winpath::prefix_len(p) < front
            &&& winpath::is_sep(p[winpath::prefix_len(p)])
        },
{
    same_mark(p, q, front);
    if winpath::has_verbatim_share_mark(p) || winpath::has_verbatim_share_mark(q) {
        assert(front >= 8) by {
            if front < 8 {
                assert(is_hex_digit(p[7]) && is_hex_digit(q[7]));
            }
        }
        assert(p[4] == q[4] && p[5] == q[5] && p[6] == q[6] && p[7] == q[7]);
        same_next_sep(p, q, front, 8);
        let first = winpath::next_sep(p, 8, true);
        if first < p.len() {
            same_next_sep(p, q, front, first + 1);
        }
    } else if winpath::has_verbatim_drive(p) || winpath::has_verbatim_drive(q) {
        assert(front >= 6) by {
            if front < 6 {
                assert(is_hex_digit(p[5]) && is_hex_digit(q[5]));
            }
        }
        assert(p[4] == q[4] && p[5] == q[5]);
        assert(front >= 7) by {
            assert(p[front - 1] == '\\');
        }
        assert(p[6] == q[6]);
    } else {
        same_next_sep(p, q, front, 4);
    }
}

/// From any place before the key on, such paths have the same components but for
/// the last one, which is the key.
proof fn same_components(p: Seq<char>, q: Seq<char>, front: int, from: int)
    requires
        same_but_key(p, q, front),
        0 <= from <= front,
    ensures
        ({
            let list = winpath::components_from(p, from, true);
            let other = winpath::components_from(q, from, true);
            &&& list.len() > 0
            &&& list.len() == other.len()
            &&& list.drop_last() == other.drop_last()
            &&& list.last() == winpath::ComponentView::Name(p.skip(front))
            &&& other.last() == winpath::ComponentView::Name(q.skip(front))
        }),
    decreases front - from,
{
    same_next_sep(p, q, front, from);
    let end = winpath::next_sep(p, from, true);
    let list = winpath::components_from(p, from, true);
    let other = winpath::components_from(q, from, true);
    if from == front {
        assert(p.subrange(front, end) =~= p.skip(front));
        assert(q.subrange(front, end) =~= q.skip(front));
        assert(list =~= seq![winpath::ComponentView::Name(p.skip(front))]);
        assert(other =~= seq![winpath::ComponentView::Name(q.skip(front))]);
        assert(list.drop_last() =~= other.drop_last());
    } else {
        same_components(p, q, front, end + 1);
        assert(p.subrange(from, end) =~= q.subrange(from, end));
        let piece = winpath::component(p.subrange(from, end), true);
        let rest = winpath::components_from(p, end + 1, true);
        let other_rest = winpath::components_from(q, end + 1, true);
        assert(list == piece + rest);
        assert(other == piece + other_rest);
        assert(list.drop_last() =~= piece + rest.drop_last());
        assert(other.drop_last() =~= piece + other_rest.drop_last());
    }
}

/// Such paths, read literally and written out again, have the same length and end
/// in their keys.
proof fn literal_paths_end_in_key(p: Seq<char>, q: Seq<char>, front: int)
    requires
        same_but_key(p, q, front),
        winpath::is_verbatim(p),
    ensures
        winpath::components(p).len() > 0,
        winpath::components(q).len() > 0,
        ({
            let x = winpath::render(winpath::components(p));
            let y = winpath::render(winpath::components(q));
            &&& x.len() == y.len()
            &&& x.len() >= 32
            &&& x.skip(x.len() - 32) == p.skip(front)
            &&& y.skip(y.len() - 32) == q.skip(front)
        }),
{
    same_mark(p, q, front);
    same_prefix(p, q, front);
    let at = winpath::prefix_len(p);
    let list = winpath::components(p);
    let other = winpath::components(q);
    let x = winpath::render(list);
    let y = winpath::render(other);
    if at == p.len() {
        assert(p.subrange(0, at) =~= p);
        assert(q.subrange(0, at) =~= q);
        assert(list =~= seq![winpath::ComponentView::Prefix(p)]);
        assert(other =~= seq![winpath::ComponentView::Prefix(q)]);
        winpath_laws::only_component(winpath::ComponentView::Prefix(p));
        winpath_laws::only_component(winpath::ComponentView::Prefix(q));
        assert(x.skip(x.len() - 32) =~= p.skip(front));
        assert(y.skip(y.len() - 32) =~= q.skip(front));
    } else {
        assert(p[at] == q[at]);
        assert(p.subrange(0, at) =~= q.subrange(0, at));
        same_components(p, q, front, at + 1);
        let rest = winpath::components_from(p, at + 1, true);
        let other_rest = winpath::components_from(q, at + 1, true);
        let head = seq![winpath::ComponentView::Prefix(p.subrange(0, at))] + seq![
            winpath::ComponentView::Root,
        ];
        assert(list =~= head + rest);
        assert(other =~= head + other_rest);
        assert(list.drop_last() =~= head + rest.drop_last());
        assert(other.drop_last() =~= head + other_rest.drop_last());
        assert(list[list.len() - 2] == list.drop_last().last());
        assert(other[other.len() - 2] == other.drop_last().last());
        let k = p.skip(front);
        let l = q.skip(front);
        assert(x.len() == y.len());
        assert(x.skip(x.len() - 32) =~= k);
        assert(y.skip(y.len() - 32) =~= l);
    }
}

/// Steps down only add to how a list of components is written.
proof fn steps_down_extend(
    list: Seq<winpath::ComponentView>,
    steps: Seq<winpath::ComponentView>,
)
    requires
        list.len() > 0,
        forall|i: int| 0 <= i < steps.len() ==> #[trigger] steps[i] is Name || steps[i] is Current,
    ensures
        winpath::step_through(list, steps).len() > 0,
        ({
            let before = winpath::render(list);
            let after = winpath::render(winpath::step_through(list, steps));
            &&& before.len() <= after.len()
            &&& after.take(before.len() as int) == before
        }),
    decreases steps.len(),
{
    let before = winpath::render(list);
    if steps.len() == 0 {
        assert(before.take(before.len() as int) =~= before);
    } else {
        let front = steps.drop_last();
        assert forall|i: int| 0 <= i < front.len() implies #[trigger] front[i] is Name
            || front[i] is Current by {
            assert(front[i] == steps[i]);
        }
        steps_down_extend(list, front);
        let middle = winpath::step_through(list, front);
        let last = steps[steps.len() - 1];
        assert(last is Name || last is Current);
        if last is Name {
            let all = middle.push(last);
            assert(all.drop_last() =~= middle);
            let shorter = winpath::render(middle);
            let longer = winpath::render(all);
            assert(longer.take(shorter.len() as int) =~= shorter);
            assert(longer.take(before.len() as int) =~= shorter.take(before.len() as int));
        }
    }
}

/// When a batch is over and no file failed, it has one result for each file, in the
/// order of the files.
pub proof fn finished_batch_has_every_file(batch: PullBatchView, i: int)
    requires
        batch.well_formed(),
        batch.is_over(),
        !batch.failed,
        0 <= i < batch.items.len(),
    ensures
        batch.results.len() == batch.items.len(),
        batch.results[i].remote_path == batch.items[i],
        batch.results[i].name == remote_name(batch.items[i]),
{
}

/// The name of a pulled file is what its device path has after the last slash: for a
/// name in a folder just that name, whole, and for a bare name that name.
pub proof fn pulled_name_is_the_last_part(folder: Seq<char>, name: Seq<char>)
    requires
        forall|i: int| 0 <= i < name.len() ==> #[trigger] name[i] != '/',
    ensures
        remote_name(folder + seq!['/'] + name) == name,
        remote_name(name) == name,
{
    let remote = folder + seq!['/'] + name;
    text::last_index_of_is_last(remote, '/');
    assert(remote[folder.len() as int] == '/');
    assert forall|i: int| folder.len() < i < remote.len() implies remote[i] != '/' by {
        assert(remote[i] == name[i - folder.len() - 1]);
    }
    assert(text::last_index_of(remote, '/') == folder.len());
    assert(remote.skip(folder.len() as int + 1) =~= name);
    text::last_index_of_is_last(name, '/');
    assert(name.skip(0) =~= name);
}

/// Of any device path, the pulled name is the end: it has no slash, and is the whole
/// path or has a slash right before it.
pub proof fn pulled_name_ends_the_path(remote: Seq<char>)
    ensures
        ({
            let name = remote_name(remote);
            let at = remote.len() - name.len();
            &&& 0 <= at
            &&& remote.skip(at) == name
            &&& forall|i: int| 0 <= i < name.len() ==> #[trigger] name[i] != '/'
            &&& at == 0 || remote[at - 1] == '/'
        }),
{
    text::last_index_of_is_last(remote, '/');
    let name = remote_name(remote);
    let at = remote.len() - name.len();
    assert forall|i: int| 0 <= i < name.len() implies #[trigger] name[i] != '/' by {
        assert(name[i] == remote[at + i]);
    }
}

/// The plan of one file: the whole key, the folder of that key right below the
/// workspace, the name and the whole device path.
pub proof fn plan_keeps_key_name_and_path(
    workspace: &str,
    key: String,
    remote: String,
    plan: PullPlan,
    args: Vec<String>,
)
    requires
        call_ensures(plan_pull, (workspace, key, remote), plan),
        call_ensures(pull_args, (&plan,), args),
    ensures
        plan.key@ == key@,
        plan.remote_path@ == remote@,
        plan.dest_dir@ == workspace@ + seq!['\\'] + key@,
        plan.name@ == remote_name(remote@),
        plan.local_path@ == winpath::join(plan.dest_dir@, plan.name@),
        args@.len() == 3,
        args@[0]@ == "pull"@,
        args@[1]@ == remote@,
        args@[2]@ == plan.local_path@,
{
    reveal_strlit("\\");
    assert("\\"@ =~= seq!['\\']);
    assert(text::texts(args@).len() == 3);
    assert(text::texts(args@)[0] == args@[0]@);
    assert(text::texts(args@)[1] == args@[1]@);
    assert(text::texts(args@)[2] == args@[2]@);
}

/// A file with a plain name lies in the folder of its key under just that name.
pub proof fn plain_file_lies_under_its_name(
    workspace: &str,
    key: String,
    remote: String,
    plan: PullPlan,
    folder: Seq<char>,
    name: Seq<char>,
)
    requires
        call_ensures(plan_pull, (workspace, key, remote), plan),
        is_key(key@),
        winpath_laws::is_simple_name(name),
        remote@ == folder + seq!['/'] + name || remote@ == name,
        winpath::is_verbatim(workspace@ + seq!['\\'] + key@) ==> winpath_laws::is_plainly_written(
            workspace@ + seq!['\\'] + key@,
        ),
    ensures
        plan.name@ == name,
        plan.local_path@ == workspace@ + seq!['\\'] + key@ + seq!['\\'] + name,
{
    reveal_strlit("\\");
    assert("\\"@ =~= seq!['\\']);
    assert forall|i: int| 0 <= i < name.len() implies #[trigger] name[i] != '/' by {
        assert(!winpath::is_sep(name[i]));
    }
    pulled_name_is_the_last_part(folder, name);
    winpath_laws::simple_name_is_one_component(name);
    assert(!winpath::is_sep(name[0]));
    assert(winpath_laws::are_names(winpath::components(name)));
    pulled_file_lies_in_its_directory(workspace@, key@, remote@);
    assert(plan.local_path@ =~= workspace@ + seq!['\\'] + key@ + seq!['\\'] + name);
}

/// The result of a pulled file tells its plan and its size to the byte; a size that
/// could not be read is told as zero. Every failure gives its reason.
pub proof fn result_tells_plan_and_size(
    plan: PullPlan,
    outcome: PullOutcome,
    result: Result<PullResult, AppError>,
)
    requires
        call_ensures(finish_pull, (plan, outcome), result),
    ensures
        outcome matches PullOutcome::Pulled(size) ==> (result matches Ok(out) && out.key@
            == plan.key@ && out.local_path@ == plan.local_path@ && out.name@ == plan.name@
            && out.remote_path@ == plan.remote_path@ && (size matches Some(n) ==> out.size == n)
            && (size is None ==> out.size == 0)),
        outcome matches PullOutcome::NoDirectory(reason) ==> (result matches Err(AppError::Io(text))
            && text@ == reason@),
        outcome matches PullOutcome::NoAdb(e) ==> (result matches Err(same) && same@ == e@),
        outcome matches PullOutcome::NotStarted(reason) ==> (result matches Err(
            AppError::Other(text),
        ) && text@ == "adb pull failed: "@ + reason@),
        outcome is Failed ==> (result matches Err(AppError::Other(text)) && text@
            == "adb pull 失败："@ + plan.remote_path@
            + "，请确认设备已连接并启用 USB 调试"@),
{
}

/// A batch starts with all files to do and nothing done, and hands out a plan for
/// the first of them that is not done.
pub proof fn batch_does_file_after_file(
    items: Vec<String>,
    workspace: String,
    batch: PullBatch,
    later: PullBatch,
    next: Option<PullPlan>,
)
    requires
        call_ensures(pull_device_files, (items, workspace), batch),
        later@.workspace == batch@.workspace,
        later@.items == batch@.items,
        later@.well_formed(),
        !later.failed,
        call_ensures(PullBatch::next_plan, (&later,), next),
    ensures
        batch.results@.len() == 0,
        !batch.failed,
        batch.workspace@ == workspace@,
        batch.items@.len() == items@.len(),
        forall|i: int| 0 <= i < items@.len() ==> (#[trigger] batch.items@[i])@ == items@[i]@,
        later.results@.len() < items@.len() ==> (next matches Some(plan) && plan.remote_path@
            == items@[later.results@.len() as int]@ && plan.dest_dir@ == workspace@ + seq!['\\']
            + plan.key@ && plan.name@ == remote_name(plan.remote_path@) && plan.local_path@
            == winpath::join(plan.dest_dir@, plan.name@) && is_key(plan.key@)),
        later.results@.len() == items@.len() ==> next is None,
{
    reveal_strlit("\\");
    assert("\\"@ =~= seq!['\\']);
    assert(text::texts(batch.items@).len() == batch.items@.len());
    assert(text::texts(items@).len() == items@.len());
    assert(result_views(batch.results@).len() == batch.results@.len());
    assert(result_views(later.results@).len() == later.results@.len());
    assert forall|i: int| 0 <= i < items@.len() implies (#[trigger] batch.items@[i])@
        == items@[i]@ by {
        assert(text::texts(batch.items@)[i] == batch.items@[i]@);
        assert(text::texts(items@)[i] == items@[i]@);
    }
    let done = later.results@.len() as int;
    if done < items@.len() {
        assert(text::texts(items@)[done] == items@[done]@);
    }
}

/// Every result of a batch is of the file at its place, in the folder of its own
/// key.
pub proof fn results_are_of_their_files(batch: PullBatch, i: int)
    requires
        batch@.well_formed(),
        0 <= i < batch.results@.len(),
    ensures
        i < batch.items@.len(),
        batch.results@[i].remote_path@ == batch.items@[i]@,
        batch.results@[i].name@ == remote_name(batch.items@[i]@),
        batch.results@[i].local_path@ == winpath::join(
            batch.workspace@ + seq!['\\'] + batch.results@[i].key@,
            batch.results@[i].name@,
        ),
        is_key(batch.results@[i].key@),
{
    reveal_strlit("\\");
    assert("\\"@ =~= seq!['\\']);
    assert(result_views(batch.results@).len() == batch.results@.len());
    assert(text::texts(batch.items@).len() == batch.items@.len());
    assert(batch@.results[i] == batch.results@[i]@);
    assert(batch@.items[i] == batch.items@[i]@);
}

/// What [`PullBatch::record`] makes of a batch: a pulled file adds its result at the
/// end, with its size to the byte, and a failure adds nothing and ends the batch
/// with its reason. The results so far, the files and the workspace stay.
pub proof fn recording_adds_the_result(
    batch: &mut PullBatch,
    plan: PullPlan,
    outcome: PullOutcome,
    result: Result<(), AppError>,
    i: int,
)
    requires
        call_ensures(PullBatch::record, (batch, plan, outcome), result),
        0 <= i < old(batch).results@.len(),
    ensures
        final(batch).workspace@ == old(batch).workspace@,
        final(batch)@.items == old(batch)@.items,
        final(batch).results@.len() >= old(batch).results@.len(),
        final(batch).results@[i]@ == old(batch).results@[i]@,
{
    recording_tells_plan_and_size(batch, plan, outcome, result);
    assert(old(batch)@.results[i] == old(batch).results@[i]@);
    assert(final(batch)@.results.len() == final(batch).results@.len());
    assert(final(batch)@.results[i] == final(batch).results@[i]@);
}

/// The result that a pulled file adds tells its plan and its size to the byte; a
/// failure is told with its reason.
pub proof fn recording_tells_plan_and_size(
    batch: &mut PullBatch,
    plan: PullPlan,
    outcome: PullOutcome,
    result: Result<(), AppError>,
)
    requires
        call_ensures(PullBatch::record, (batch, plan, outcome), result),
    ensures
        outcome matches PullOutcome::Pulled(size) ==> ({
            let n = old(batch).results@.len();
            &&& result is Ok
            &&& !final(batch).failed
            &&& final(batch).results@.len() == n + 1
            &&& final(batch).results@[n as int].key@ == plan.key@
            &&& final(batch).results@[n as int].name@ == plan.name@
            &&& final(batch).results@[n as int].local_path@ == plan.local_path@
            &&& final(batch).results@[n as int].remote_path@ == plan.remote_path@
            &&& size is Some ==> final(batch).results@[n as int].size == size->Some_0
            &&& size is None ==> final(batch).results@[n as int].size == 0
            &&& final(batch)@.results == old(batch)@.results.push(
                final(batch).results@[n as int]@,
            )
        }),
        !(outcome is Pulled) ==> result is Err && final(batch).failed && final(batch)@.results
            == old(batch)@.results,
        outcome matches PullOutcome::NoDirectory(reason) ==> (result matches Err(AppError::Io(text))
            && text@ == reason@),
        outcome matches PullOutcome::NoAdb(e) ==> (result matches Err(same) && same@ == e@),
        outcome matches PullOutcome::NotStarted(reason) ==> (result matches Err(
            AppError::Other(text),
        ) && text@ == "adb pull failed: "@ + reason@),
        outcome is Failed ==> (result matches Err(AppError::Other(text)) && text@
            == "adb pull 失败："@ + plan.remote_path@
            + "，请确认设备已连接并启用 USB 调试"@),
{
    let n = old(batch).results@.len() as int;
    assert(old(batch)@.results.len() == n);
    assert(final(batch)@.results.len() == final(batch).results@.len());
    if outcome is Pulled {
        assert(final(batch)@.results[n] == final(batch).results@[n]@);
    }
}

/// A key has 32 hexadecimal digits in small letters, with the marks of a random UUID.
pub proof fn keys_have_the_form_of_a_random_uuid(key: Seq<char>, i: int)
    requires
        is_key(key),
        0 <= i < 32,
    ensures
        key.len() == 32,
        ('0' <= key[i] <= '9') || ('a' <= key[i] <= 'f'),
        key[12] == '4',
        key[16] == '8' || key[16] == '9' || key[16] == 'a' || key[16] == 'b',
{
    assert(is_hex_digit(key[i]));
}

/// The key of a plan is the whole text that a draw gave.
proof fn key_is_drawn_whole(batch: PullBatch, next: Option<PullPlan>)
    requires
        call_ensures(PullBatch::next_plan, (&batch,), next),
        next is Some,
    ensures
        exists|drawn: String| #[trigger]
            call_ensures(fresh_key, (), drawn) && drawn@ == next->Some_0.key@,
{
}

} // verus!
