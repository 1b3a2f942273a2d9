//! Files on a device, reached through `adb`: finding the program and listing a
//! directory.

use crate::error;
use crate::error::AppError;
use crate::text;
use crate::text::{
    chars_of, found_at, parse_u64, same_text, split_lines, split_words, text_between,
    trimmed_len,
};
use vstd::prelude::*;
use vstd::string::*;

verus! {

/// One entry of a device directory.
#[derive(Debug, Clone, PartialEq)]
pub struct DeviceEntry {
    pub name: String,
    pub is_dir: bool,
    pub size: u64,
}

/// The contents of a [`DeviceEntry`].
#[verifier::ext_equal]
pub struct DeviceEntryView {
    pub name: Seq<char>,
    pub is_dir: bool,
    pub size: u64,
}

impl View for DeviceEntry {
    type V = DeviceEntryView;

    open spec fn view(&self) -> DeviceEntryView {
        DeviceEntryView { name: self.name@, is_dir: self.is_dir, size: self.size }
    }
}

/// What a list of entries holds.
pub open spec fn entry_views(entries: Seq<DeviceEntry>) -> Seq<DeviceEntryView> {
    Seq::new(entries.len(), |i: int| entries[i]@)
}

/// A line without the line feeds and carriage returns at its end.
pub open spec fn ls_row(line: Seq<char>) -> Seq<char> {
    text::trim_end(line, seq!['\r', '\n'])
}

/// The entry that a row of `ls -la` describes: permissions, links, owner, group,
/// size, date, time and name, the name being the last word. The summary at the
/// top, the entries `.` and `..` and rows of another form describe none.
pub open spec fn ls_entry(line: Seq<char>) -> Option<DeviceEntryView> {
    let row = ls_row(line);
    let cols = text::words(row);
    if row.len() == 0 || text::starts_with(row, "total"@) || cols.len() < 8 {
        None
    } else if cols.last() == "."@ || cols.last() == ".."@ {
        None
    } else {
        match text::u64_value(cols[4]) {
            Some(size) => Some(
                DeviceEntryView {
                    name: cols.last(),
                    is_dir: cols[0].len() > 0 && cols[0][0] == 'd',
                    size,
                },
            ),
            None => None,
        }
    }
}

/// The entries that the rows describe, in order.
pub open spec fn ls_entries(rows: Seq<Seq<char>>) -> Seq<DeviceEntryView>
    decreases rows.len(),
{
    if rows.len() == 0 {
        Seq::empty()
    } else {
        match ls_entry(rows.last()) {
            Some(entry) => ls_entries(rows.drop_last()).push(entry),
            None => ls_entries(rows.drop_last()),
        }
    }
}

/// Whether a text begins with the character `c`.
fn begins_with(word: &str, c: char) -> (yes: bool)
    ensures
        yes == (word@.len() > 0 && word@[0] == c),
{
    let chars = chars_of(word);
    chars.len() > 0 && chars[0] == c
}

/// Parse one `ls -la` line. Never fails the caller — returns None on odd lines.
pub fn parse_ls_line(line: &str) -> (entry: Option<DeviceEntry>)
    ensures
        match entry {
            Some(entry) => ls_entry(line@) == Some(entry@),
            None => ls_entry(line@) is None,
        },
{
    let chars = chars_of(line);
    let line_ends = vec!['\r', '\n'];
    assert(line_ends@ =~= seq!['\r', '\n']);
    let end = trimmed_len(&chars, &line_ends);
    let row = chars_of(text_between(&chars, 0, end).as_str());
    assert(row@ == ls_row(line@));
    if row.len() == 0 || found_at(&row, &chars_of("total"), 0) {
        return None;
    }
    let cols = split_words(&row);
    let ghost words = text::words(row@);
    assert(text::texts(cols@) == words);
    let n: usize = cols.len();
    assert(n == words.len());
    if n < 8 {
        return None;
    }
    assert(words[0] == cols@[0]@ && words[4] == cols@[4]@ && words.last() == cols@[n - 1]@);
    let size = match parse_u64(cols[4].as_str()) {
        Some(size) => size,
        None => {
            return None;
        },
    };
    let name = cols[n - 1].clone();
    if same_text(name.as_str(), ".") || same_text(name.as_str(), "..") {
        return None;
    }
    Some(DeviceEntry { name, is_dir: begins_with(cols[0].as_str(), 'd'), size })
}

/// Parse the whole output of `ls -la`, leaving out the lines that describe no
/// entry.
pub fn parse_ls_output(output: &str) -> (entries: Vec<DeviceEntry>)
    ensures
        entry_views(entries@) == ls_entries(text::lines(output@)),
{
    let rows = split_lines(output);
    let ghost all = text::lines(output@);
    assert(text::texts(rows@) == all);
    assert(rows@.len() == all.len());
    let mut entries: Vec<DeviceEntry> = Vec::new();
    let mut i: usize = 0;
    assert(all.take(0) =~= Seq::empty());
    assert(entry_views(entries@) =~= Seq::empty());
    while i < rows.len()
        invariant
            0 <= i <= rows@.len(),
            rows@.len() == all.len(),
            text::texts(rows@) == all,
            entry_views(entries@) == ls_entries(all.take(i as int)),
        decreases rows@.len() - i,
    {
        let ghost before = entry_views(entries@);
        assert(rows@[i as int]@ == all[i as int]);
        assert(all.take(i + 1).drop_last() =~= all.take(i as int));
        match parse_ls_line(rows[i].as_str()) {
            Some(entry) => {
                entries.push(entry);
                assert(entry_views(entries@) =~= before.push(entry@));
            },
            None => {},
        }
        i = i + 1;
    }
    assert(all.take(i as int) =~= all);
    entries
}

/// An entry never has an empty name, a name with white space, or one of the
/// names `.` and `..`.
pub proof fn entry_names_are_usable(line: Seq<char>)
    requires
        ls_entry(line) is Some,
    ensures
        text::is_word(ls_entry(line)->0.name),
        ls_entry(line)->0.name != "."@,
        ls_entry(line)->0.name != ".."@,
{
    let cols = text::words(ls_row(line));
    text::words_have_no_space(ls_row(line), 0, cols.len() - 1);
}

/// A row of eight or more words, one blank apart, is read as it is meant: the
/// first letter tells a directory, the fifth word is the size and the last the
/// name.
pub proof fn well_formed_rows_read_back(cols: Seq<Seq<char>>, size: u64)
    requires
        cols.len() >= 8,
        forall|i: int| 0 <= i < cols.len() ==> text::is_word(#[trigger] cols[i]),
        !text::starts_with(text::spaced(cols), "total"@),
        text::u64_value(cols[4]) == Some(size),
        cols.last() != "."@,
        cols.last() != ".."@,
    ensures
        ls_entry(text::spaced(cols)) == Some(
            DeviceEntryView { name: cols.last(), is_dir: cols[0][0] == 'd', size },
        ),
{
    let row = text::spaced(cols);
    text::spaced_words_read_back(cols);
    assert(text::is_word(cols[cols.len() - 1]));
    assert(row.last() == cols.last().last());
    assert(!text::is_space(cols.last()[cols.last().len() - 1]));
    assert(ls_row(row) == row) by {
        assert(!seq!['\r', '\n'].contains(row.last())) by {
            let ends = seq!['\r', '\n'];
            if ends.contains(row.last()) {
                let k = choose|k: int| 0 <= k < ends.len() && ends[k] == row.last();
                assert(k == 0 || k == 1);
            }
        }
    }
    assert(text::is_word(cols[0]));
}

/// The entries of some rows and more rows are those of the first and then those
/// of the others.
proof fn entries_of_more_rows(a: Seq<Seq<char>>, b: Seq<Seq<char>>)
    ensures
        ls_entries(a + b) == ls_entries(a) + ls_entries(b),
    decreases b.len(),
{
    if b.len() == 0 {
        assert(a + b =~= a);
        assert(ls_entries(a) + ls_entries(b) =~= ls_entries(a));
    } else {
        assert((a + b).drop_last() =~= a + b.drop_last());
        assert((a + b).last() == b.last());
        entries_of_more_rows(a, b.drop_last());
        match ls_entry(b.last()) {
            Some(entry) => {
                assert((ls_entries(a) + ls_entries(b.drop_last())).push(entry) =~= ls_entries(a)
                    + ls_entries(b.drop_last()).push(entry));
            },
            None => {},
        }
    }
}

/// A carriage return at the end of a line does not matter.
proof fn return_does_not_matter(line: Seq<char>)
    ensures
        ls_entry(text::without_return(line)) == ls_entry(line),
{
    if line.len() > 0 && line.last() == '\r' {
        assert(seq!['\r', '\n'][0] == '\r');
        assert(seq!['\r', '\n'].contains(line.last()));
    }
}

/// The entries of one row.
proof fn entries_of_one_row(row: Seq<char>)
    ensures
        ls_entries(seq![row]) == match ls_entry(row) {
            Some(entry) => seq![entry],
            None => Seq::<DeviceEntryView>::empty(),
        },
{
    assert(seq![row].drop_last() =~= Seq::empty());
    assert(ls_entries(seq![row].drop_last()) =~= Seq::empty());
    assert(ls_entries(seq![row]) =~= match ls_entry(row) {
        Some(entry) => seq![entry],
        None => Seq::<DeviceEntryView>::empty(),
    });
}

/// Two outputs with a line feed between them describe the entries of the first
/// and then those of the second: no line spoils another.
pub proof fn outputs_can_be_appended(a: Seq<char>, b: Seq<char>)
    ensures
        ls_entries(text::lines(a + seq!['\n'] + b)) == ls_entries(text::lines(a)) + ls_entries(
            text::lines(b),
        ),
{
    outputs_can_be_appended_from(a, b, 0);
}

proof fn outputs_can_be_appended_from(a: Seq<char>, b: Seq<char>, from: int)
    requires
        0 <= from <= a.len(),
    ensures
        ls_entries(text::lines_from(a + seq!['\n'] + b, from)) == ls_entries(
            text::lines_from(a, from),
        ) + ls_entries(text::lines(b)),
    decreases a.len() - from,
{
    let all = a + seq!['\n'] + b;
    let rest = ls_entries(text::lines(b));
    text::line_end_before_feed(a, b, from);
    text::line_end_in_range(a, from);
    text::lines_after_front(a + seq!['\n'], b, 0);
    let end = text::line_end(a, from);
    let line = a.subrange(from, end);
    let tail = text::lines_from(all, end + 1);
    assert(all.subrange(from, end) =~= line);
    assert(text::lines_from(all, from) == seq![text::without_return(line)] + tail);
    entries_of_more_rows(seq![text::without_return(line)], tail);
    entries_of_one_row(text::without_return(line));
    return_does_not_matter(line);
    let own = ls_entries(seq![text::without_return(line)]);
    if end < a.len() {
        outputs_can_be_appended_from(a, b, end + 1);
        entries_of_more_rows(
            seq![text::without_return(line)],
            text::lines_from(a, end + 1),
        );
        assert(own + (ls_entries(text::lines_from(a, end + 1)) + rest) =~= (own + ls_entries(
            text::lines_from(a, end + 1),
        )) + rest);
    } else if from < a.len() {
        entries_of_one_row(line);
        assert(text::lines_from(a, from) =~= seq![line]);
    } else {
        assert(line =~= Seq::empty());
        assert(ls_entry(text::without_return(line)) is None);
        assert(own + rest =~= rest);
        assert(ls_entries(text::lines_from(a, from)) + rest =~= rest);
    }
}

/// A text with every single quote replaced by `'\\''`: the quoted part ends, an
/// escaped quote follows, and another quoted part begins.
pub open spec fn escape_quotes(text: Seq<char>) -> Seq<char>
    decreases text.len(),
{
    if text.len() == 0 {
        Seq::empty()
    } else if text.last() == '\'' {
        escape_quotes(text.drop_last()) + "'\\''"@
    } else {
        escape_quotes(text.drop_last()).push(text.last())
    }
}

/// A text as one word for the device's shell.
pub open spec fn shell_quoted(text: Seq<char>) -> Seq<char> {
    "'"@ + escape_quotes(text) + "'"@
}

/// A text as one word for the device's shell.
fn quote_for_shell(word: &str) -> (quoted: String)
    ensures
        quoted@ == shell_quoted(word@),
{
    let chars = chars_of(word);
    let mut quoted = "'".to_owned();
    let mut i: usize = 0;
    assert(chars@.take(0) =~= Seq::empty());
    assert(quoted@ =~= "'"@ + escape_quotes(chars@.take(0)));
    while i < chars.len()
        invariant
            0 <= i <= chars@.len(),
            quoted@ == "'"@ + escape_quotes(chars@.take(i as int)),
        decreases chars@.len() - i,
    {
        let ghost upto = chars@.take(i + 1);
        assert(upto.drop_last() =~= chars@.take(i as int));
        if chars[i] == '\'' {
            quoted.append("'\\''");
        } else {
            quoted.push(chars[i]);
        }
        assert(quoted@ =~= "'"@ + escape_quotes(upto));
        i = i + 1;
    }
    assert(chars@.take(i as int) =~= chars@);
    quoted.concat("'")
}

/// What a POSIX shell makes of a word that consists of parts in single quotes
/// and characters after a backslash. `quoted` tells whether the word is read from
/// inside a quoted part. Any other word, and one with an open quote, gives none.
pub open spec fn shell_word(word: Seq<char>, quoted: bool) -> Option<Seq<char>>
    decreases word.len(),
{
    if word.len() == 0 {
        if quoted {
            None
        } else {
            Some(Seq::empty())
        }
    } else if word[0] == '\'' {
        shell_word(word.skip(1), !quoted)
    } else if quoted {
        match shell_word(word.skip(1), true) {
            Some(rest) => Some(seq![word[0]] + rest),
            None => None,
        }
    } else if word[0] == '\\' && word.len() >= 2 {
        match shell_word(word.skip(2), false) {
            Some(rest) => Some(seq![word[1]] + rest),
            None => None,
        }
    } else {
        None
    }
}

/// The shell reads a quoted text as that text, whatever characters it has.
pub proof fn shell_reads_quoted_text(text: Seq<char>)
    ensures
        shell_word(shell_quoted(text), false) == Some(text),
{
    reveal_strlit("'");
    let end = "'"@;
    assert(end.skip(1) =~= Seq::empty());
    assert(shell_word(end.skip(1), false) == Some(Seq::<char>::empty()));
    assert(shell_word(end, true) == Some(Seq::<char>::empty()));
    shell_reads_escaped_text(text, end, Seq::empty());
    assert(text + Seq::<char>::empty() =~= text);
    let word = shell_quoted(text);
    assert(word =~= end + (escape_quotes(text) + end));
    assert(word.skip(1) =~= escape_quotes(text) + end);
}

/// Inside a quoted part, an escaped text stands for that text.
proof fn shell_reads_escaped_text(text: Seq<char>, tail: Seq<char>, rest: Seq<char>)
    requires
        shell_word(tail, true) == Some(rest),
    ensures
        shell_word(escape_quotes(text) + tail, true) == Some(text + rest),
    decreases text.len(),
{
    if text.len() == 0 {
        assert(escape_quotes(text) + tail =~= tail);
        assert(text + rest =~= rest);
    } else {
        let c = text.last();
        let front = text.drop_last();
        let new_rest = seq![c] + rest;
        assert(text + rest =~= front + new_rest);
        if c == '\'' {
            reveal_strlit("'\\''");
            let quote = "'\\''"@;
            let new_tail = quote + tail;
            assert(new_tail.skip(1).skip(2).skip(1) =~= tail);
            assert(new_tail[0] == '\'' && new_tail.skip(1)[0] == '\\' && new_tail.skip(1)[1] == '\''
                && new_tail.skip(1).skip(2)[0] == '\'');
            assert(shell_word(new_tail.skip(1).skip(2), false) == Some(rest));
            assert(shell_word(new_tail.skip(1), false) == Some(new_rest));
            assert(shell_word(new_tail, true) == Some(new_rest));
            shell_reads_escaped_text(front, new_tail, new_rest);
            assert(escape_quotes(text) + tail =~= escape_quotes(front) + new_tail);
        } else {
            let new_tail = seq![c] + tail;
            assert(new_tail.skip(1) =~= tail);
            assert(shell_word(new_tail, true) == Some(new_rest));
            shell_reads_escaped_text(front, new_tail, new_rest);
            assert(escape_quotes(text) + tail =~= escape_quotes(front) + new_tail);
        }
    }
}

/// What `adb` is called with to list a directory of the device.
pub fn list_device_args(path: &str) -> (args: Vec<String>)
    ensures
        text::texts(args@) == seq!["shell"@, "ls -la "@ + shell_quoted(path@)],
{
    let command = "ls -la ".to_owned().concat(quote_for_shell(path).as_str());
    let args = vec!["shell".to_owned(), command];
    assert(text::texts(args@) =~= seq!["shell"@, "ls -la "@ + shell_quoted(path@)]);
    args
}

/// How a call of `adb` went.
pub enum AdbReply {
    /// The program could not be started, for this reason.
    NotStarted(String),
    /// The program ended: whether it reported success, and what it printed.
    Exited { success: bool, stdout: Vec<u8> },
}

/// The text that `String::from_utf8_lossy` makes of bytes that are not UTF-8:
/// what is not is replaced by `U+FFFD`.
pub uninterp spec fn repaired_text(bytes: Seq<u8>) -> Seq<char>;

/// Calls `String::from_utf8_lossy`. Claimed of it: bytes that are UTF-8 give the
/// text that they encode; of any other bytes, only that the result depends on the
/// bytes alone.
#[verifier::external_body]
fn text_from_utf8_lossy(bytes: &Vec<u8>) -> (out: String)
    ensures
        out@ == (if vstd::utf8::valid_utf8(bytes@) {
            vstd::utf8::decode_utf8(bytes@)
        } else {
            repaired_text(bytes@)
        }),
{
    String::from_utf8_lossy(bytes).into_owned()
}

/// The text that printed bytes stand for.
pub open spec fn printed_text(bytes: Seq<u8>) -> Seq<char> {
    if vstd::utf8::valid_utf8(bytes) {
        vstd::utf8::decode_utf8(bytes)
    } else {
        repaired_text(bytes)
    }
}

/// The entries of the listed directory, or why there are none.
pub fn list_device_dir(reply: AdbReply) -> (result: Result<Vec<DeviceEntry>, AppError>)
    ensures
        match reply {
            AdbReply::NotStarted(reason) => result matches Err(e) && e@
                == error::AppErrorView::Other("adb shell failed: "@ + reason@),
            AdbReply::Exited { success: false, stdout } => result matches Err(e) && e@
                == error::AppErrorView::Other(
                "无法列出设备目录：请确认设备已连接并启用 USB 调试"@,
            ),
            AdbReply::Exited { success: true, stdout } => result matches Ok(entries)
                && entry_views(entries@) == ls_entries(text::lines(printed_text(stdout@))),
        },
{
    match reply {
        AdbReply::NotStarted(reason) => Err(
            AppError::Other("adb shell failed: ".to_owned().concat(reason.as_str())),
        ),
        AdbReply::Exited { success, stdout } => if success {
            Ok(parse_ls_output(text_from_utf8_lossy(&stdout).as_str()))
        } else {
            Err(
                AppError::Other(
                    "无法列出设备目录：请确认设备已连接并启用 USB 调试".to_owned(),
                ),
            )
        },
    }
}

/// The file name of the program.
pub fn adb_program() -> (name: &'static str)
    ensures
        name@ == "adb.exe"@,
{
    "adb.exe"
}

/// The directories to look for `adb` in: that of the app itself first, then those
/// of the search path in their order.
pub fn adb_dirs<T>(self_dir: Option<T>, path_dirs: Vec<T>) -> (dirs: Vec<T>)
    ensures
        dirs@ == match self_dir {
            Some(dir) => seq![dir] + path_dirs@,
            None => path_dirs@,
        },
{
    let mut dirs: Vec<T> = Vec::new();
    if let Some(dir) = self_dir {
        dirs.push(dir);
    }
    let mut rest = path_dirs;
    dirs.append(&mut rest);
    dirs
}

/// The next step in the search for `adb`.
pub enum AdbSearch {
    /// See whether the program is in this directory.
    Look(usize),
    /// Use the program in this directory.
    Use(usize),
    /// There is none.
    Missing(AppError),
}

/// The first directory in which the program was found.
pub open spec fn first_hit(found: Seq<bool>) -> int
    decreases found.len(),
{
    if found.len() == 0 {
        -1
    } else if first_hit(found.drop_last()) >= 0 {
        first_hit(found.drop_last())
    } else if found.last() {
        found.len() - 1
    } else {
        -1
    }
}

/// The first hit is a hit, and none comes before it.
pub proof fn first_hit_is_first(found: Seq<bool>)
    ensures
        -1 <= first_hit(found) < found.len(),
        first_hit(found) >= 0 ==> found[first_hit(found)],
        forall|i: int|
            0 <= i < found.len() && (first_hit(found) == -1 || i < first_hit(found))
                ==> !#[trigger] found[i],
    decreases found.len(),
{
    if found.len() > 0 {
        first_hit_is_first(found.drop_last());
        assert forall|i: int|
            0 <= i < found.len() && (first_hit(found) == -1 || i < first_hit(found)) implies
            !#[trigger] found[i] by {
            if i < found.len() - 1 {
                assert(found.drop_last()[i] == found[i]);
            }
        }
    }
}

/// A program next to the app itself is preferred to any other: where the first
/// directory has it, that one is the first hit.
pub proof fn bundled_program_is_preferred(found: Seq<bool>)
    requires
        found.len() > 0,
        found[0],
    ensures
        first_hit(found) == 0,
{
    first_hit_is_first(found);
}

/// Bundled `adb.exe` next to the app exe, else on PATH: the first directory that
/// has it. `found` tells of the directories looked into so far, in order, whether
/// the program was there.
pub fn adb_path(dirs: usize, found: &Vec<bool>) -> (next: AdbSearch)
    ensures
        match next {
            AdbSearch::Use(i) => first_hit(found@) == i,
            AdbSearch::Look(i) => first_hit(found@) == -1 && i == found@.len() && i < dirs,
            AdbSearch::Missing(e) => first_hit(found@) == -1 && found@.len() >= dirs && e@
                == error::AppErrorView::Other("adb not found — run scripts/fetch-adb.mjs"@),
        },
{
    let mut i: usize = 0;
    assert(found@.take(0) =~= Seq::empty());
    while i < found.len()
        invariant
            0 <= i <= found@.len(),
            first_hit(found@.take(i as int)) == -1,
        decreases found@.len() - i,
    {
        assert(found@.take(i + 1).drop_last() =~= found@.take(i as int));
        if found[i] {
            proof {
                hit_stays_first(found@, i + 1);
            }
            return AdbSearch::Use(i);
        }
        i = i + 1;
    }
    assert(found@.take(i as int) =~= found@);
    if i < dirs {
        AdbSearch::Look(i)
    } else {
        AdbSearch::Missing(AppError::Other("adb not found — run scripts/fetch-adb.mjs".to_owned()))
    }
}

/// Looking further does not change which hit was the first.
proof fn hit_stays_first(found: Seq<bool>, upto: int)
    requires
        0 <= upto <= found.len(),
        first_hit(found.take(upto)) >= 0,
    ensures
        first_hit(found) == first_hit(found.take(upto)),
    decreases found.len() - upto,
{
    if upto < found.len() {
        assert(found.take(upto + 1).drop_last() =~= found.take(upto));
        hit_stays_first(found, upto + 1);
    } else {
        assert(found.take(upto) =~= found);
    }
}

/// A line has the words that it has without line feeds and carriage returns at its
/// end.
proof fn line_ends_are_no_words(line: Seq<char>)
    ensures
        text::words(ls_row(line)) == text::words(line),
        ls_row(line).len() <= line.len(),
        ls_row(line) == line.take(ls_row(line).len() as int),
        forall|i: int|
            ls_row(line).len() <= i < line.len() ==> #[trigger] line[i] == '\r' || line[i] == '\n',
{
    let ends = seq!['\r', '\n'];
    let row = ls_row(line);
    text::trimming_cuts_off_the_end(line, ends);
    let tail = line.skip(row.len() as int);
    assert forall|i: int| row.len() <= i < line.len() implies #[trigger] line[i] == '\r' || line[i]
        == '\n' by {
        assert(ends.contains(line[i]));
        let k = choose|k: int| 0 <= k < ends.len() && ends[k] == line[i];
        assert(k == 0 || k == 1);
    }
    assert forall|i: int| 0 <= i < tail.len() implies text::is_space(#[trigger] tail[i]) by {
        assert(tail[i] == line[row.len() + i]);
    }
    text::white_space_around_adds_no_words(Seq::empty(), row, tail);
    assert(Seq::<char>::empty() + row + tail =~= line);
}

/// The entry of a line depends on its words alone, however much white space stands
/// around them: a line of at least eight words that does not start with `total`,
/// whose fifth word is a number and whose last is neither `.` nor `..`, is that
/// entry: the number is its size, the last word its name, and a first letter `d`
/// makes it a directory.
pub proof fn entry_is_told_by_the_words(line: Seq<char>, size: u64)
    requires
        text::words(line).len() >= 8,
        !text::starts_with(line, "total"@),
        text::u64_value(text::words(line)[4]) == Some(size),
        text::words(line).last() != "."@,
        text::words(line).last() != ".."@,
    ensures
        ls_entry(line) matches Some(entry) && entry.name == text::words(line).last() && entry.size
            == size && entry.is_dir == (text::words(line)[0][0] == 'd'),
{
    line_ends_are_no_words(line);
    let row = ls_row(line);
    text::words_have_no_space(row, 0, 0);
    assert(row.len() > 0) by {
        if row.len() == 0 {
            assert(text::words(row).len() == 0);
        }
    }
    if text::starts_with(row, "total"@) {
        let n = "total"@.len() as int;
        assert(line.subrange(0, n) =~= row.subrange(0, n));
    }
}

/// A line that starts with `total`, has fewer than eight words, has no number as its
/// fifth word or names `.` or `..` is no entry.
pub proof fn odd_lines_are_no_entries(line: Seq<char>)
    requires
        text::starts_with(line, "total"@) || text::words(line).len() < 8 || text::u64_value(
            text::words(line)[4],
        ) is None || text::words(line).last() == "."@ || text::words(line).last() == ".."@,
    ensures
        ls_entry(line) is None,
{
    line_ends_are_no_words(line);
    let row = ls_row(line);
    if text::starts_with(line, "total"@) {
        reveal_strlit("total");
        let word = "total"@;
        assert(line.subrange(0, 5)[4] == word[4]);
        assert(row.len() >= 5) by {
            if row.len() < 5 {
                let part = line.subrange(0, 5);
                assert(part[row.len() as int] == word[row.len() as int]);
                assert(line[row.len() as int] == '\r' || line[row.len() as int] == '\n');
            }
        }
        assert(row.subrange(0, 5) =~= line.subrange(0, 5));
    }
}

/// A row of eight or more words is read as it is meant, whatever white space stands
/// before, between and after them.
pub proof fn spread_rows_read_back(cols: Seq<Seq<char>>, gaps: Seq<Seq<char>>, size: u64)
    requires
        cols.len() >= 8,
        forall|i: int| 0 <= i < cols.len() ==> text::is_word(#[trigger] cols[i]),
        gaps.len() == cols.len() + 1,
        forall|i: int, j: int|
            0 <= i < gaps.len() && 0 <= j < gaps[i].len() ==> text::is_space(#[trigger] gaps[i][j]),
        forall|i: int| 0 < i < cols.len() ==> (#[trigger] gaps[i]).len() > 0,
        !text::starts_with(text::spread(cols, gaps), "total"@),
        text::u64_value(cols[4]) == Some(size),
        cols.last() != "."@,
        cols.last() != ".."@,
    ensures
        ls_entry(text::spread(cols, gaps)) matches Some(entry) && entry.name == cols.last()
            && entry.size == size && entry.is_dir == (cols[0][0] == 'd'),
{
    text::spread_words_read_back(cols, gaps);
    entry_is_told_by_the_words(text::spread(cols, gaps), size);
}

/// What [`parse_ls_line`] gives for a line is told by the line's words.
pub proof fn parsed_line_is_told_by_its_words(line: &str, entry: Option<DeviceEntry>, size: u64)
    requires
        call_ensures(parse_ls_line, (line,), entry),
    ensures
        text::words(line@).len() >= 8 && !text::starts_with(line@, "total"@) && text::u64_value(
            text::words(line@)[4],
        ) == Some(size) && text::words(line@).last() != "."@ && text::words(line@).last() != ".."@
            ==> (entry matches Some(e) && e.name@ == text::words(line@).last() && e.size == size
            && e.is_dir == (text::words(line@)[0][0] == 'd')),
        text::starts_with(line@, "total"@) || text::words(line@).len() < 8 || text::u64_value(
            text::words(line@)[4],
        ) is None || text::words(line@).last() == "."@ || text::words(line@).last() == ".."@
            ==> entry is None,
{
    let words = text::words(line@);
    if words.len() >= 8 && !text::starts_with(line@, "total"@) && text::u64_value(words[4]) == Some(
        size,
    ) && words.last() != "."@ && words.last() != ".."@ {
        entry_is_told_by_the_words(line@, size);
    }
    if text::starts_with(line@, "total"@) || words.len() < 8 || text::u64_value(words[4]) is None
        || words.last() == "."@ || words.last() == ".."@ {
        odd_lines_are_no_entries(line@);
    }
}

/// The entries come in the order of the rows: a further row adds its entry at the
/// end, or nothing.
pub proof fn entries_come_row_by_row(rows: Seq<Seq<char>>, row: Seq<char>)
    ensures
        ls_entries(Seq::<Seq<char>>::empty()) == Seq::<DeviceEntryView>::empty(),
        ls_entry(row) is None ==> ls_entries(rows.push(row)) == ls_entries(rows),
        ls_entry(row) is Some ==> ls_entries(rows.push(row)) == ls_entries(rows).push(
            ls_entry(row)->Some_0,
        ),
{
    assert(rows.push(row).drop_last() =~= rows);
}

/// What [`parse_ls_output`] gives for an output with a first line and more: the
/// entry of that line, if it is one, and then the entries of the rest.
pub proof fn parsed_output_goes_line_by_line(
    first: &str,
    rest: &str,
    output: &str,
    entry: Option<DeviceEntry>,
    others: Vec<DeviceEntry>,
    entries: Vec<DeviceEntry>,
)
    requires
        forall|i: int| 0 <= i < first@.len() ==> #[trigger] first@[i] != '\n',
        output@ == first@ + seq!['\n'] + rest@,
        call_ensures(parse_ls_line, (first,), entry),
        call_ensures(parse_ls_output, (rest,), others),
        call_ensures(parse_ls_output, (output,), entries),
    ensures
        entry is None ==> entries@.len() == others@.len(),
        entry is Some ==> entries@.len() == others@.len() + 1 && entries@[0]@ == entry->Some_0@,
        forall|i: int|
            0 <= i < others@.len() ==> (#[trigger] others@[i])@ == entries@[i + entries@.len()
                - others@.len()]@,
{
    let a = first@;
    outputs_can_be_appended(a, rest@);
    text::first_line_ends_at_the_feed(a, Seq::empty());
    if a.len() == 0 {
        text::nothing_has_no_lines();
        assert(text::lines(a) =~= Seq::empty());
        odd_lines_are_no_entries_when_empty(a);
    } else {
        assert(text::lines(a) == seq![a]);
        entries_of_one_row(a);
    }
    let mine = ls_entries(text::lines(a));
    assert(entry_views(entries@) == mine + entry_views(others@));
    assert(entry_views(entries@).len() == entries@.len());
    assert(entry_views(others@).len() == others@.len());
    assert forall|i: int| 0 <= i < others@.len() implies (#[trigger] others@[i])@ == entries@[i
        + entries@.len() - others@.len()]@ by {
        assert(entry_views(others@)[i] == others@[i]@);
        assert(entry_views(entries@)[i + mine.len()] == entries@[i + mine.len()]@);
    }
    if entry is Some {
        assert(entry_views(entries@)[0] == entries@[0]@);
    }
}

proof fn odd_lines_are_no_entries_when_empty(line: Seq<char>)
    requires
        line.len() == 0,
    ensures
        ls_entry(line) is None,
{
    line_ends_are_no_words(line);
}

/// A text without quotes is quoted as it is; where a text has one, the parts before
/// and after it are quoted as they would be alone.
pub proof fn quotes_are_escaped_one_by_one(a: Seq<char>, b: Seq<char>)
    requires
        forall|i: int| 0 <= i < a.len() ==> #[trigger] a[i] != '\'',
    ensures
        escape_quotes(a) == a,
        escape_quotes(a + seq!['\''] + b) == a + seq!['\'', '\\', '\'', '\''] + escape_quotes(b),
        shell_quoted(a) == seq!['\''] + a + seq!['\''],
        shell_quoted(b).len() >= 2,
        shell_quoted(b) == seq!['\''] + escape_quotes(b) + seq!['\''],
    decreases a.len() + b.len(),
{
    reveal_strlit("'");
    reveal_strlit("'\\''");
    let quote = "'\\''"@;
    assert(quote =~= seq!['\'', '\\', '\'', '\'']);
    if a.len() > 0 {
        let front = a.drop_last();
        assert forall|i: int| 0 <= i < front.len() implies #[trigger] front[i] != '\'' by {
            assert(front[i] == a[i]);
        }
        quotes_are_escaped_one_by_one(front, Seq::empty());
        assert(a[a.len() - 1] != '\'');
        assert(front.push(a.last()) =~= a);
        assert(escape_quotes(a) == escape_quotes(front).push(a.last()));
    } else {
        assert(escape_quotes(a) =~= a);
    }
    assert(escape_quotes(a) == a);
    let all = a + seq!['\''] + b;
    if b.len() == 0 {
        assert(all.drop_last() =~= a);
        assert(all.last() == '\'');
        assert(escape_quotes(b) =~= Seq::empty());
        assert(escape_quotes(all) == escape_quotes(all.drop_last()) + quote);
        assert(escape_quotes(all) =~= a + quote + escape_quotes(b));
    } else {
        let front = b.drop_last();
        quotes_are_escaped_one_by_one(a, front);
        assert(all.drop_last() =~= a + seq!['\''] + front);
        assert(all.last() == b.last());
        if b.last() == '\'' {
            assert(escape_quotes(b) == escape_quotes(front) + quote);
        } else {
            assert(escape_quotes(b) == escape_quotes(front).push(b.last()));
        }
        assert(escape_quotes(all) =~= a + quote + escape_quotes(b));
    }
    assert("'"@ =~= seq!['\'']);
}

/// `adb` is told to run `ls -la` on the path, which the shell reads as one word.
pub proof fn listing_names_the_directory(path: &str, args: Vec<String>)
    requires
        call_ensures(list_device_args, (path,), args),
    ensures
        args@.len() == 2,
        args@[0]@ == "shell"@,
        exists|word: Seq<char>|
            args@[1]@ == #[trigger] ("ls -la "@ + word) && shell_word(word, false) == Some(path@),
        (forall|i: int| 0 <= i < path@.len() ==> #[trigger] path@[i] != '\'') ==> args@[1]@
            == "ls -la "@ + (seq!['\''] + path@ + seq!['\'']),
{
    assert(text::texts(args@).len() == 2);
    assert(text::texts(args@)[0] == args@[0]@);
    assert(text::texts(args@)[1] == args@[1]@);
    shell_reads_quoted_text(path@);
    assert(args@[1]@ == "ls -la "@ + shell_quoted(path@));
    if forall|i: int| 0 <= i < path@.len() ==> #[trigger] path@[i] != '\'' {
        quotes_are_escaped_one_by_one(path@, Seq::empty());
    }
}

/// What `adb` printed is listed as it parses, where it is UTF-8: the result does not
/// depend on anything else, and a call that failed lists nothing.
pub proof fn device_listing_is_what_was_printed(
    shown: &str,
    stdout: Vec<u8>,
    success: bool,
    reason: String,
    parsed: Vec<DeviceEntry>,
    result: Result<Vec<DeviceEntry>, AppError>,
    unstarted: Result<Vec<DeviceEntry>, AppError>,
)
    requires
        stdout@ == vstd::utf8::encode_utf8(shown@),
        call_ensures(parse_ls_output, (shown,), parsed),
        call_ensures(list_device_dir, (AdbReply::Exited { success, stdout },), result),
        call_ensures(list_device_dir, (AdbReply::NotStarted(reason),), unstarted),
    ensures
        success ==> (result matches Ok(entries) && entry_views(entries@) == entry_views(parsed@)),
        !success ==> (result matches Err(AppError::Other(text)) && text@
            == "无法列出设备目录：请确认设备已连接并启用 USB 调试"@),
        unstarted matches Err(AppError::Other(text)) && text@ == "adb shell failed: "@ + reason@,
{
    vstd::utf8::encode_utf8_valid_utf8(shown@);
    vstd::utf8::encode_utf8_decode_utf8(shown@);
}

/// The app's own directory is searched first, and then those of the search path in
/// their order: none is left out, none comes twice.
pub proof fn own_directory_is_searched_first<T>(
    self_dir: Option<T>,
    path_dirs: Vec<T>,
    dirs: Vec<T>,
    i: int,
)
    requires
        call_ensures(adb_dirs::<T>, (self_dir, path_dirs), dirs),
        0 <= i < path_dirs@.len(),
    ensures
        self_dir is None ==> dirs@.len() == path_dirs@.len() && dirs@[i] == path_dirs@[i],
        self_dir is Some ==> dirs@.len() == path_dirs@.len() + 1 && dirs@[0] == self_dir->Some_0
            && dirs@[i + 1] == path_dirs@[i],
{
}

/// The search uses the first directory that has the program, looks on in the next
/// one as long as none had it, and gives up only when all were looked into.
pub proof fn search_goes_on_until_the_first_hit(dirs: usize, found: &Vec<bool>, next: AdbSearch)
    requires
        call_ensures(adb_path, (dirs, found), next),
    ensures
        forall|hit: int|
            0 <= hit < found@.len() && found@[hit] && (forall|j: int|
                0 <= j < hit ==> !#[trigger] found@[j]) ==> (next matches AdbSearch::Use(i) && i
                == hit),
        (forall|j: int| 0 <= j < found@.len() ==> !#[trigger] found@[j]) && found@.len() < dirs ==> (
        next matches AdbSearch::Look(i) && i == found@.len()),
        (forall|j: int| 0 <= j < found@.len() ==> !#[trigger] found@[j]) && found@.len() >= dirs
            ==> (next matches AdbSearch::Missing(AppError::Other(text)) && text@
            == "adb not found — run scripts/fetch-adb.mjs"@),
{
    first_hit_is_first(found@);
    assert forall|hit: int|
        0 <= hit < found@.len() && found@[hit] && (forall|j: int|
            0 <= j < hit ==> !#[trigger] found@[j]) implies (next matches AdbSearch::Use(i) && i
        == hit) by {
        let at = first_hit(found@);
        if at == -1 || hit < at {
            assert(!found@[hit]);
        } else if at < hit {
            assert(!found@[at]);
        }
    }
}

/// Every entry of an output is given, in order, with all that it tells.
pub proof fn all_entries_are_given(output: &str, entries: Vec<DeviceEntry>, i: int)
    requires
        call_ensures(parse_ls_output, (output,), entries),
    ensures
        entries@.len() == ls_entries(text::lines(output@)).len(),
        0 <= i < entries@.len() ==> entries@[i].name@ == ls_entries(text::lines(output@))[i].name
            && entries@[i].size == ls_entries(text::lines(output@))[i].size && entries@[i].is_dir
            == ls_entries(text::lines(output@))[i].is_dir,
{
    assert(entry_views(entries@).len() == entries@.len());
    if 0 <= i < entries@.len() {
        assert(entry_views(entries@)[i] == entries@[i]@);
    }
}

/// A device listing has as many entries as were parsed, each as it was parsed.
pub proof fn device_listing_has_all_entries(
    shown: &str,
    stdout: Vec<u8>,
    parsed: Vec<DeviceEntry>,
    result: Result<Vec<DeviceEntry>, AppError>,
    i: int,
)
    requires
        stdout@ == vstd::utf8::encode_utf8(shown@),
        call_ensures(parse_ls_output, (shown,), parsed),
        call_ensures(list_device_dir, (AdbReply::Exited { success: true, stdout },), result),
    ensures
        result matches Ok(entries) && entries@.len() == parsed@.len() && (0 <= i < parsed@.len()
            ==> entries@[i].name@ == parsed@[i].name@ && entries@[i].size == parsed@[i].size
            && entries@[i].is_dir == parsed@[i].is_dir),
{
    vstd::utf8::encode_utf8_valid_utf8(shown@);
    vstd::utf8::encode_utf8_decode_utf8(shown@);
    let entries = result->Ok_0;
    assert(entry_views(entries@).len() == entries@.len());
    assert(entry_views(parsed@).len() == parsed@.len());
    if 0 <= i < parsed@.len() {
        assert(entry_views(entries@)[i] == entries@[i]@);
        assert(entry_views(parsed@)[i] == parsed@[i]@);
    }
}

} // verus!
