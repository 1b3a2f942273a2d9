//! What a trial of the shell's file dialog reports: whether the shell can read its
//! own names of a picked item back, and the text that tells so.

use crate::text;
use vstd::prelude::*;
use vstd::string::*;

verus! {

/// What came of having the shell parse a name.
pub struct ShellParse {
    /// The call reported success.
    pub succeeded: bool,
    /// The call gave an item list.
    pub has_item: bool,
}

/// Whether the shell could parse a name: the call succeeded and gave an item list.
pub fn parse_round_trips(parse: ShellParse) -> (yes: bool)
    ensures
        yes == (parse.succeeded && parse.has_item),
{
    parse.succeeded && parse.has_item
}

/// Whether the shell could parse a display path.
pub fn spike_parse_path(parse: ShellParse) -> (yes: bool)
    ensures
        yes == (parse.succeeded && parse.has_item),
{
    parse_round_trips(parse)
}

/// Report the delivered drag/drop path verbatim.
pub fn spike_echo(path: String) -> (out: String)
    ensures
        out@ == path@,
{
    path
}

/// A failure as it stands in a report.
pub open spec fn failure_text(reason: Seq<char>) -> Seq<char> {
    "ERR("@ + reason + ")"@
}

/// A failure as it stands in a report.
fn write_failure(reason: &str) -> (out: String)
    ensures
        out@ == failure_text(reason@),
{
    "ERR(".to_owned().concat(reason).concat(")")
}

/// A display name as it stands in a report: the name, or why it could not be read.
pub fn read_display_name(read: Result<String, String>) -> (out: String)
    ensures
        match read {
            Ok(name) => out@ == name@,
            Err(reason) => out@ == failure_text(reason@),
        },
{
    match read {
        Ok(name) => name,
        Err(reason) => write_failure(reason.as_str()),
    }
}

/// `true` or `false`.
pub open spec fn bool_text(value: bool) -> Seq<char> {
    if value {
        "true"@
    } else {
        "false"@
    }
}

/// `true` or `false`.
fn write_bool(value: bool) -> (out: &'static str)
    ensures
        out@ == bool_text(value),
{
    if value {
        "true"
    } else {
        "false"
    }
}

/// What is known of the folder that a picked item lies in.
pub enum ParentProbe {
    /// Its name, and whether the shell could parse that name.
    Found(String, bool),
    /// The folder could not be had.
    Missing,
}

/// The two texts that a record has for the parent folder: both `ERR` where the
/// folder could not be had.
pub open spec fn parent_texts(parent: ParentProbe) -> (Seq<char>, Seq<char>) {
    match parent {
        ParentProbe::Found(name, parsed) => (name@, bool_text(parsed)),
        ParentProbe::Missing => ("ERR"@, "ERR"@),
    }
}

/// The record of a picked item.
pub open spec fn record(
    parsing: Seq<char>,
    filesys: Seq<char>,
    parsed: bool,
    parent: (Seq<char>, Seq<char>),
) -> Seq<char> {
    "parsing="@ + parsing + "\nfilesys="@ + filesys + "\nparse="@ + bool_text(parsed)
        + "\nparentparsing="@ + parent.0 + "\nparentparse="@ + parent.1
}

/// One record: the item's two display names, whether the shell could parse the
/// first, and the same of the folder that the item lies in.
pub fn format_display_names(
    parsing: &str,
    filesys: &str,
    parsed: bool,
    parent: ParentProbe,
) -> (out: String)
    ensures
        out@ == record(parsing@, filesys@, parsed, parent_texts(parent)),
{
    let (parent_parsing, parent_parse) = match parent {
        ParentProbe::Found(name, parsed) => (name, write_bool(parsed)),
        ParentProbe::Missing => ("ERR".to_owned(), "ERR"),
    };
    "parsing=".to_owned().concat(parsing).concat("\nfilesys=").concat(filesys).concat(
        "\nparse=",
    ).concat(write_bool(parsed)).concat("\nparentparsing=").concat(
        parent_parsing.as_str(),
    ).concat("\nparentparse=").concat(parent_parse)
}

/// What came of the file dialog.
pub enum PickOutcome {
    /// The dialog's thread did not end as it should.
    NoThread,
    /// The dialog could not be created, for this reason.
    NotCreated(String),
    /// The dialog was cancelled or could not be shown, for this reason.
    NotShown(String),
    /// The dialog gave no item, for this reason.
    NoResult(String),
    /// The record of the picked item.
    Picked(String),
}

/// The line that reports an outcome.
pub open spec fn pick_line(outcome: PickOutcome) -> Seq<char> {
    match outcome {
        PickOutcome::NoThread => "spawn=ERR"@,
        PickOutcome::NotCreated(reason) => "create="@ + reason@,
        PickOutcome::NotShown(reason) => "show="@ + reason@,
        PickOutcome::NoResult(reason) => "getresult="@ + reason@,
        PickOutcome::Picked(record) => record@,
    }
}

/// What a trial of the file dialog reports.
pub fn spike_pick(outcome: PickOutcome) -> (lines: Vec<String>)
    ensures
        text::texts(lines@) == seq![pick_line(outcome)],
{
    let line = match outcome {
        PickOutcome::NoThread => "spawn=ERR".to_owned(),
        PickOutcome::NotCreated(reason) => "create=".to_owned().concat(reason.as_str()),
        PickOutcome::NotShown(reason) => "show=".to_owned().concat(reason.as_str()),
        PickOutcome::NoResult(reason) => "getresult=".to_owned().concat(reason.as_str()),
        PickOutcome::Picked(record) => record,
    };
    let lines = vec![line];
    assert(text::texts(lines@) =~= seq![pick_line(outcome)]);
    lines
}

/// A record has five lines, one for each thing that it tells, where the texts in
/// it are lines.
pub proof fn record_has_five_lines(
    parsing: Seq<char>,
    filesys: Seq<char>,
    parsed: bool,
    parent: (Seq<char>, Seq<char>),
)
    requires
        text::is_line(parsing),
        text::is_line(filesys),
        text::is_line(parent.0),
        text::is_line(parent.1),
    ensures
        text::lines(record(parsing, filesys, parsed, parent)) == seq![
            "parsing="@ + parsing,
            "filesys="@ + filesys,
            "parse="@ + bool_text(parsed),
            "parentparsing="@ + parent.0,
            "parentparse="@ + parent.1,
        ],
{
    reveal_strlit("parsing=");
    reveal_strlit("filesys=");
    reveal_strlit("parse=");
    reveal_strlit("parentparsing=");
    reveal_strlit("parentparse=");
    reveal_strlit("\nfilesys=");
    reveal_strlit("\nparse=");
    reveal_strlit("\nparentparsing=");
    reveal_strlit("\nparentparse=");
    reveal_strlit("true");
    reveal_strlit("false");
    let one = "parsing="@ + parsing;
    let two = "filesys="@ + filesys;
    let three = "parse="@ + bool_text(parsed);
    let four = "parentparsing="@ + parent.0;
    let five = "parentparse="@ + parent.1;
    let feed = seq!['\n'];
    let from_four = four + feed + five;
    let from_three = three + feed + from_four;
    let from_two = two + feed + from_three;
    assert(record(parsing, filesys, parsed, parent) =~= one + feed + from_two);
    text::line_is_one_line(five);
    text::line_comes_first(four, five);
    text::line_comes_first(three, from_four);
    text::line_comes_first(two, from_three);
    text::line_comes_first(one, from_two);
    assert(text::lines(one + feed + from_two) =~= seq![one, two, three, four, five]);
}

/// A name was parsed just where the call succeeded and gave an item.
pub proof fn parsing_takes_success_and_an_item(parse: ShellParse, yes: bool, again: bool)
    requires
        call_ensures(parse_round_trips, (parse,), yes),
        call_ensures(spike_parse_path, (parse,), again),
    ensures
        yes == again,
        yes ==> parse.succeeded,
        yes ==> parse.has_item,
        parse.succeeded && parse.has_item ==> yes,
{
}

/// A path is echoed to the character, and a name that was read is reported so; a
/// failure is reported with its whole reason.
pub proof fn names_are_reported_whole(
    path: String,
    echoed: String,
    reason: String,
    name: String,
    failure: String,
)
    requires
        call_ensures(spike_echo, (path,), echoed),
        call_ensures(read_display_name, (Ok::<String, String>(path),), name),
        call_ensures(read_display_name, (Err::<String, String>(reason),), failure),
    ensures
        echoed@ == path@,
        name@ == path@,
        failure@ == "ERR("@ + reason@ + ")"@,
{
}

/// A record has all that was found out, each after its own mark and in this order;
/// a folder that could not be had is marked `ERR` in both of its places.
pub proof fn record_has_all_that_was_found(
    parsing: &str,
    filesys: &str,
    parsed: bool,
    name: String,
    name_parsed: bool,
    found: String,
    missing: String,
)
    requires
        call_ensures(
            format_display_names,
            (parsing, filesys, parsed, ParentProbe::Found(name, name_parsed)),
            found,
        ),
        call_ensures(
            format_display_names,
            (parsing, filesys, parsed, ParentProbe::Missing),
            missing,
        ),
    ensures
        found@ == "parsing="@ + parsing@ + "\nfilesys="@ + filesys@ + "\nparse="@ + (if parsed {
            "true"@
        } else {
            "false"@
        }) + "\nparentparsing="@ + name@ + "\nparentparse="@ + (if name_parsed {
            "true"@
        } else {
            "false"@
        }),
        missing@ == "parsing="@ + parsing@ + "\nfilesys="@ + filesys@ + "\nparse="@ + (if parsed {
            "true"@
        } else {
            "false"@
        }) + "\nparentparsing="@ + "ERR"@ + "\nparentparse="@ + "ERR"@,
{
}

/// A trial reports one line: the record of the picked item as it is, or at which
/// step it failed and the whole reason.
pub proof fn trial_reports_one_line(outcome: PickOutcome, lines: Vec<String>)
    requires
        call_ensures(spike_pick, (outcome,), lines),
    ensures
        lines@.len() == 1,
        outcome matches PickOutcome::Picked(record) ==> lines@[0]@ == record@,
        outcome matches PickOutcome::NotCreated(reason) ==> lines@[0]@ == "create="@ + reason@,
        outcome matches PickOutcome::NotShown(reason) ==> lines@[0]@ == "show="@ + reason@,
        outcome matches PickOutcome::NoResult(reason) ==> lines@[0]@ == "getresult="@ + reason@,
        outcome is NoThread ==> lines@[0]@ == "spawn=ERR"@,
{
    assert(text::texts(lines@).len() == 1);
    assert(text::texts(lines@)[0] == lines@[0]@);
}

} // verus!
