//! The application's error type, and the hint shown when a disk is full.

use crate::text;
use crate::text::{chars_of, has_part, to_lowercase};
use vstd::prelude::*;
use vstd::string::*;

verus! {

/// What can go wrong in a command.
#[derive(Debug)]
pub enum AppError {
    /// The operating system refused a file operation; holds its message.
    Io(String),
    /// A path that must exist does not; holds the path.
    PathDoesNotExist(String),
    /// Anything else; holds the whole message.
    Other(String),
}

/// The contents of an [`AppError`].
pub enum AppErrorView {
    Io(Seq<char>),
    PathDoesNotExist(Seq<char>),
    Other(Seq<char>),
}

impl View for AppError {
    type V = AppErrorView;

    open spec fn view(&self) -> AppErrorView {
        match self {
            AppError::Io(text) => AppErrorView::Io(text@),
            AppError::PathDoesNotExist(path) => AppErrorView::PathDoesNotExist(path@),
            AppError::Other(text) => AppErrorView::Other(text@),
        }
    }
}

impl AppErrorView {
    /// The message that the user reads.
    pub open spec fn message(self) -> Seq<char> {
        match self {
            AppErrorView::Io(text) => "IO error: "@ + text,
            AppErrorView::PathDoesNotExist(path) => "Path does not exist: "@ + path,
            AppErrorView::Other(text) => text,
        }
    }
}

impl AppError {
    /// The message that the user reads.
    pub fn message(&self) -> (out: String)
        ensures
            out@ == self@.message(),
    {
        match self {
            AppError::Io(text) => String::from_str("IO error: ").concat(text.as_str()),
            AppError::PathDoesNotExist(path) => String::from_str("Path does not exist: ").concat(
                path.as_str(),
            ),
            AppError::Other(text) => text.clone(),
        }
    }

    /// The same error once more.
    pub fn copy(&self) -> (out: AppError)
        ensures
            out@ == self@,
    {
        match self {
            AppError::Io(text) => AppError::Io(text.clone()),
            AppError::PathDoesNotExist(path) => AppError::PathDoesNotExist(path.clone()),
            AppError::Other(text) => AppError::Other(text.clone()),
        }
    }
}

/// The error that `std` reports for a failed file operation.
#[verifier::external_type_specification]
#[verifier::external_body]
pub struct ExIoError(std::io::Error);

/// Calls `to_string` on a `std::io::Error`. Nothing is claimed of the text: the
/// operating system words it.
#[verifier::external_body]
fn io_error_text(error: &std::io::Error) -> (text: String) {
    error.to_string()
}

impl vstd::std_specs::convert::FromSpecImpl<std::io::Error> for AppError {
    open spec fn obeys_from_spec() -> bool {
        false
    }

    open spec fn from_spec(error: std::io::Error) -> AppError {
        arbitrary()
    }
}

/// `text` is one that `to_string` gives for the error.
pub closed spec fn is_text_of(error: std::io::Error, text: Seq<char>) -> bool {
    exists|given: String| #[trigger]
        call_ensures(io_error_text, (&error,), given) && given@ == text
}

/// The error for a file operation that failed, given the system's words for it.
pub fn io_error(text: String) -> (out: AppError)
    ensures
        out@ == AppErrorView::Io(text@),
{
    AppError::Io(text)
}

impl From<std::io::Error> for AppError {
    fn from(error: std::io::Error) -> (out: AppError)
        ensures
            out@ matches AppErrorView::Io(text) && is_text_of(error, text),
    {
        let read = io_error_text;
        io_error(read(&error))
    }
}

/// The hint for a full disk.
pub open spec fn disk_full_text() -> Seq<char> {
    "Not enough disk space to write the output. Free up space and retry."@
}

/// What the messages of encoders and systems say when a disk is full, in small
/// letters.
pub open spec fn disk_full_patterns() -> Seq<Seq<char>> {
    seq![
        "no space left on device"@,
        "not enough space"@,
        "insufficient space"@,
        "error writing file"@,
        "error writing output"@,
        "failed to write"@,
        "disk full"@,
        "enospc"@,
        "空间不足"@,
    ]
}

/// A text in small letters holds one of the patterns.
pub open spec fn shows_disk_full(lower: Seq<char>) -> bool {
    exists|i: int|
        0 <= i < disk_full_patterns().len() && text::contains(lower, #[trigger] disk_full_patterns()[i])
}

/// Whether a text in small letters looks like a disk-full failure.
fn has_disk_full_pattern(lower: &str) -> (found: bool)
    ensures
        found == shows_disk_full(lower@),
{
    let chars = chars_of(lower);
    let found = has_part(&chars, &chars_of("no space left on device")) || has_part(
        &chars,
        &chars_of("not enough space"),
    ) || has_part(&chars, &chars_of("insufficient space")) || has_part(
        &chars,
        &chars_of("error writing file"),
    ) || has_part(&chars, &chars_of("error writing output")) || has_part(
        &chars,
        &chars_of("failed to write"),
    ) || has_part(&chars, &chars_of("disk full")) || has_part(&chars, &chars_of("enospc"))
        || has_part(&chars, &chars_of("空间不足"));
    proof {
        let patterns = disk_full_patterns();
        assert(patterns.len() == 9);
        assert(patterns[0] == "no space left on device"@);
        assert(patterns[1] == "not enough space"@);
        assert(patterns[2] == "insufficient space"@);
        assert(patterns[3] == "error writing file"@);
        assert(patterns[4] == "error writing output"@);
        assert(patterns[5] == "failed to write"@);
        assert(patterns[6] == "disk full"@);
        assert(patterns[7] == "enospc"@);
        assert(patterns[8] == "空间不足"@);
    }
    found
}

/// The hint for an error text that is already in small letters.
pub fn disk_full_hint_in_lowercase(lower: &str) -> (hint: Option<&'static str>)
    ensures
        hint is Some <==> shows_disk_full(lower@),
        hint matches Some(text) ==> text@ == disk_full_text(),
{
    if has_disk_full_pattern(lower) {
        Some("Not enough disk space to write the output. Free up space and retry.")
    } else {
        None
    }
}

/// Return a friendly hint when an error string looks like a disk-full failure.
/// Capitals and small letters count as the same.
pub fn disk_full_hint(err: &str) -> (hint: Option<&'static str>)
    ensures
        hint is Some <==> shows_disk_full(text::lowercase(err@)),
        hint matches Some(text) ==> text@ == disk_full_text(),
{
    let lower = to_lowercase(err);
    disk_full_hint_in_lowercase(lower.as_str())
}

/// Messages of ASCII characters and characters without case that differ only in
/// capitals get the same answer.
pub proof fn hint_ignores_capitals(a: Seq<char>, b: Seq<char>)
    requires
        text::has_plain_case(a),
        text::has_plain_case(b),
        text::ascii_lowercase(a) == text::ascii_lowercase(b),
    ensures
        shows_disk_full(text::lowercase(a)) == shows_disk_full(text::lowercase(b)),
{
}

/// Each of the patterns is recognised wherever it stands in a text in small
/// letters.
pub proof fn every_pattern_is_recognised(before: Seq<char>, i: int, after: Seq<char>)
    requires
        0 <= i < disk_full_patterns().len(),
    ensures
        shows_disk_full(before + disk_full_patterns()[i] + after),
{
    let pattern = disk_full_patterns()[i];
    let text = before + pattern + after;
    assert(text.subrange(before.len() as int, (before.len() + pattern.len()) as int) =~= pattern);
    assert(text::occurs_at(text, pattern, before.len() as int));
}

/// Each of the patterns is recognised wherever it stands in a message, whichever
/// of its letters are capitals, where the message has only ASCII characters and
/// characters without case.
pub proof fn patterns_are_recognised_in_capitals(
    before: Seq<char>,
    written: Seq<char>,
    i: int,
    after: Seq<char>,
)
    requires
        0 <= i < disk_full_patterns().len(),
        text::ascii_lowercase(written) == disk_full_patterns()[i],
        text::has_plain_case(before + written + after),
    ensures
        shows_disk_full(text::lowercase(before + written + after)),
{
    assert(text::lowercase(before + written + after) =~= text::ascii_lowercase(before)
        + disk_full_patterns()[i] + text::ascii_lowercase(after));
    every_pattern_is_recognised(text::ascii_lowercase(before), i, text::ascii_lowercase(after));
}

/// More text around a message that gets the hint does not take the hint away.
pub proof fn more_text_keeps_the_hint(before: Seq<char>, lower: Seq<char>, after: Seq<char>)
    requires
        shows_disk_full(lower),
    ensures
        shows_disk_full(before + lower + after),
{
    let i = choose|i: int|
        0 <= i < disk_full_patterns().len() && text::contains(lower, #[trigger] disk_full_patterns()[i]);
    let pattern = disk_full_patterns()[i];
    let at = choose|at: int| #[trigger] text::occurs_at(lower, pattern, at);
    let text = before + lower + after;
    assert(text.subrange(before.len() + at, before.len() + at + pattern.len()) =~= pattern);
    assert(text::occurs_at(text, pattern, before.len() + at));
}

/// The hint comes just where the message, in small letters, has one of the nine
/// patterns in it, whatever stands around it; it is always the same hint.
pub proof fn hint_means_a_pattern(err: &str, hint: Option<&'static str>)
    requires
        call_ensures(disk_full_hint, (err,), hint),
    ensures
        hint matches Some(text) ==> text@
            == "Not enough disk space to write the output. Free up space and retry."@,
        hint is Some <==> ({
            let lower = text::lowercase(err@);
            ||| text::contains(lower, "no space left on device"@)
            ||| text::contains(lower, "not enough space"@)
            ||| text::contains(lower, "insufficient space"@)
            ||| text::contains(lower, "error writing file"@)
            ||| text::contains(lower, "error writing output"@)
            ||| text::contains(lower, "failed to write"@)
            ||| text::contains(lower, "disk full"@)
            ||| text::contains(lower, "enospc"@)
            ||| text::contains(lower, "空间不足"@)
        }),
{
    let patterns = disk_full_patterns();
    assert(patterns.len() == 9);
    assert(patterns[0] == "no space left on device"@);
    assert(patterns[1] == "not enough space"@);
    assert(patterns[2] == "insufficient space"@);
    assert(patterns[3] == "error writing file"@);
    assert(patterns[4] == "error writing output"@);
    assert(patterns[5] == "failed to write"@);
    assert(patterns[6] == "disk full"@);
    assert(patterns[7] == "enospc"@);
    assert(patterns[8] == "空间不足"@);
}

/// A message that shouts or whispers gets the same hint, and so does one with more
/// text around it.
pub proof fn hints_agree(
    err: &str,
    other: &str,
    hint: Option<&'static str>,
    other_hint: Option<&'static str>,
    before: Seq<char>,
    after: Seq<char>,
)
    requires
        call_ensures(disk_full_hint, (err,), hint),
        call_ensures(disk_full_hint, (other,), other_hint),
        text::has_plain_case(err@),
        text::has_plain_case(other@),
    ensures
        err@.len() == other@.len() && (forall|i: int|
            0 <= i < err@.len() ==> text::ascii_lower(#[trigger] err@[i]) == text::ascii_lower(
                other@[i],
            )) ==> hint is Some == other_hint is Some,
        other@ == before + err@ + after && hint is Some ==> other_hint is Some,
{
    if err@.len() == other@.len() && (forall|i: int|
        0 <= i < err@.len() ==> text::ascii_lower(#[trigger] err@[i]) == text::ascii_lower(
            other@[i],
        )) {
        assert(text::ascii_lowercase(err@) =~= text::ascii_lowercase(other@));
    }
    if other@ == before + err@ + after && hint is Some {
        more_text_keeps_the_hint(
            text::ascii_lowercase(before),
            text::ascii_lowercase(err@),
            text::ascii_lowercase(after),
        );
        assert(text::ascii_lowercase(other@) =~= text::ascii_lowercase(before)
            + text::ascii_lowercase(err@) + text::ascii_lowercase(after));
    }
}

/// A message says of what kind the error is, and then the whole text of it.
pub proof fn message_has_the_whole_text(e: AppError, message: String, copied: AppError)
    requires
        call_ensures(AppError::message, (&e,), message),
        call_ensures(AppError::copy, (&e,), copied),
    ensures
        e matches AppError::Io(text) ==> message@ == "IO error: "@ + text@ && (
        copied matches AppError::Io(same) && same@ == text@),
        e matches AppError::PathDoesNotExist(path) ==> message@ == "Path does not exist: "@ + path@
            && (copied matches AppError::PathDoesNotExist(same) && same@ == path@),
        e matches AppError::Other(text) ==> message@ == text@ && (
        copied matches AppError::Other(same) && same@ == text@),
        e@.message() == message@,
{
}

/// An error made of a system's text holds just that text.
pub proof fn io_error_holds_the_text(text: String, out: AppError)
    requires
        call_ensures(io_error, (text,), out),
    ensures
        out matches AppError::Io(held) && held@ == text@,
{
}

/// A text that is already in small letters gets the hint by the same patterns.
pub proof fn lowered_text_gets_the_same_hint(
    err: &str,
    lower: &str,
    hint: Option<&'static str>,
    same: Option<&'static str>,
)
    requires
        lower@ == text::lowercase(err@),
        call_ensures(disk_full_hint, (err,), hint),
        call_ensures(disk_full_hint_in_lowercase, (lower,), same),
    ensures
        hint is Some == same is Some,
        hint matches Some(text) ==> text@ == same->Some_0@,
{
}

/// An error made of a system error holds the whole text that the system gave for it,
/// and is of the kind for file operations.
proof fn system_text_is_kept_whole(error: std::io::Error, out: AppError)
    requires
        call_ensures(<AppError as From<std::io::Error>>::from, (error,), out),
    ensures
        out is Io,
        exists|given: String| #[trigger]
            call_ensures(io_error_text, (&error,), given) && given@ == out->Io_0@,
{
}

} // verus!
