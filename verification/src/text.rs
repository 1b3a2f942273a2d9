//! Characters, words, lines and numbers of a text, as mathematical functions
//! and as code that computes them.

use vstd::prelude::*;

verus! {

/// `String::push` appends one character at the end.
pub assume_specification[ String::push ](s: &mut String, ch: char)
    ensures
        final(s)@ == old(s)@.push(ch),
;

/// What `str::to_lowercase` makes of a text with characters other than ASCII and
/// those without case: the Unicode lower-case mapping.
pub uninterp spec fn unicode_lowercase(text: Seq<char>) -> Seq<char>;

/// Calls `str::to_lowercase`. Claimed of it: where every character is an ASCII
/// character or one without case, each of `A` to `Z` is replaced by its small
/// letter and every other character kept; of any other text, only that the result
/// depends on the text alone.
#[verifier::external_body]
pub(crate) fn to_lowercase(text: &str) -> (lower: String)
    ensures
        lower@ == (if has_plain_case(text@) {
            ascii_lowercase(text@)
        } else {
            unicode_lowercase(text@)
        }),
{
    text.to_lowercase()
}

/// The text in small letters.
pub open spec fn lowercase(text: Seq<char>) -> Seq<char> {
    if has_plain_case(text) {
        ascii_lowercase(text)
    } else {
        unicode_lowercase(text)
    }
}

/// Chinese characters and the punctuation written with them: scripts without
/// capitals and small letters.
pub open spec fn is_caseless(c: char) -> bool {
    ||| '\u{3000}' <= c <= '\u{303f}'
    ||| '\u{4e00}' <= c <= '\u{9fff}'
    ||| '\u{ff01}' <= c <= '\u{ff20}'
}

/// Every character is an ASCII character or one without case.
pub open spec fn has_plain_case(text: Seq<char>) -> bool {
    forall|i: int|
        0 <= i < text.len() ==> (#[trigger] text[i] as u32) < 128 || is_caseless(text[i])
}

/// The small letter of an ASCII capital; any other character itself.
pub open spec fn ascii_lower(c: char) -> char {
    if 'A' <= c && c <= 'Z' {
        ((c as u8) + 32) as char
    } else {
        c
    }
}

/// The text with every ASCII capital made small.
pub open spec fn ascii_lowercase(text: Seq<char>) -> Seq<char> {
    Seq::new(text.len(), |i: int| ascii_lower(text[i]))
}

/// The small letter of an ASCII capital; any other character itself.
pub fn lower_char(c: char) -> (lower: char)
    ensures
        lower == ascii_lower(c),
{
    if 'A' <= c && c <= 'Z' {
        ((c as u8) + 32) as char
    } else {
        c
    }
}

/// The characters of `text`, in order.
pub fn chars_of(text: &str) -> (out: Vec<char>)
    ensures
        out@ == text@,
{
    let mut out: Vec<char> = Vec::new();
    for c in it: text.chars()
        invariant
            it.seq() == text@,
            out@ == text@.subrange(0, it.index() as int),
    {
        out.push(c);
    }
    out
}

/// The text made of `chars[from..to]`.
pub fn text_between(chars: &Vec<char>, from: usize, to: usize) -> (out: String)
    requires
        from <= to <= chars@.len(),
    ensures
        out@ == chars@.subrange(from as int, to as int),
{
    let mut out = String::new();
    let mut i: usize = from;
    while i < to
        invariant
            from <= i <= to <= chars@.len(),
            out@ == chars@.subrange(from as int, i as int),
        decreases to - i,
    {
        out.push(chars[i]);
        i = i + 1;
        assert(out@ == chars@.subrange(from as int, i as int));
    }
    out
}

/// The texts that a list of strings holds.
pub open spec fn texts(list: Seq<String>) -> Seq<Seq<char>> {
    Seq::new(list.len(), |i: int| list[i]@)
}

/// `part` stands in `text` at position `at`.
pub open spec fn occurs_at(text: Seq<char>, part: Seq<char>, at: int) -> bool {
    0 <= at && at + part.len() <= text.len() && text.subrange(at, at + part.len()) == part
}

/// `part` stands somewhere in `text`.
pub open spec fn contains(text: Seq<char>, part: Seq<char>) -> bool {
    exists|at: int| #[trigger] occurs_at(text, part, at)
}

/// `text` begins with `part`.
pub open spec fn starts_with(text: Seq<char>, part: Seq<char>) -> bool {
    occurs_at(text, part, 0)
}

/// Whether `part` stands in `text` at position `at`.
pub fn found_at(text: &Vec<char>, part: &Vec<char>, at: usize) -> (found: bool)
    ensures
        found == occurs_at(text@, part@, at as int),
{
    if part.len() > text.len() || at > text.len() - part.len() {
        return false;
    }
    let mut i: usize = 0;
    while i < part.len()
        invariant
            0 <= i <= part@.len(),
            at + part@.len() <= text@.len() <= usize::MAX,
            forall|j: int| 0 <= j < i ==> text@[at + j] == part@[j],
        decreases part@.len() - i,
    {
        if text[at + i] != part[i] {
            assert(text@.subrange(at as int, at + part@.len())[i as int] == text@[at + i]);
            return false;
        }
        i = i + 1;
    }
    assert(text@.subrange(at as int, at + part@.len()) =~= part@);
    true
}

/// Whether `part` stands somewhere in `text`.
pub fn has_part(text: &Vec<char>, part: &Vec<char>) -> (found: bool)
    ensures
        found == contains(text@, part@),
{
    let mut at: usize = 0;
    while at < text.len()
        invariant
            0 <= at <= text@.len(),
            forall|i: int| 0 <= i < at ==> !#[trigger] occurs_at(text@, part@, i),
        decreases text@.len() - at,
    {
        if found_at(text, part, at) {
            return true;
        }
        at = at + 1;
    }
    found_at(text, part, at)
}

/// Whether two texts hold the same characters.
pub fn same_text(a: &str, b: &str) -> (same: bool)
    ensures
        same == (a@ == b@),
{
    let x = chars_of(a);
    let y = chars_of(b);
    let same = x.len() == y.len() && found_at(&x, &y, 0);
    assert(x@.subrange(0, x@.len() as int) =~= x@);
    same
}

/// Whether two texts agree when ASCII capitals count as small letters.
pub fn same_ignoring_ascii_case(a: &str, b: &str) -> (same: bool)
    ensures
        same == (ascii_lowercase(a@) == ascii_lowercase(b@)),
{
    let x = chars_of(a);
    let y = chars_of(b);
    if x.len() != y.len() {
        assert(ascii_lowercase(a@).len() != ascii_lowercase(b@).len());
        return false;
    }
    let mut i: usize = 0;
    while i < x.len()
        invariant
            0 <= i <= x@.len(),
            x@ == a@,
            y@ == b@,
            x@.len() == y@.len(),
            forall|j: int| 0 <= j < i ==> ascii_lower(x@[j]) == ascii_lower(y@[j]),
        decreases x@.len() - i,
    {
        if lower_char(x[i]) != lower_char(y[i]) {
            assert(ascii_lowercase(a@)[i as int] != ascii_lowercase(b@)[i as int]);
            return false;
        }
        i = i + 1;
    }
    assert(ascii_lowercase(a@) =~= ascii_lowercase(b@));
    true
}

/// The position of the last `c` in `text`, or -1 where there is none.
pub open spec fn last_index_of(text: Seq<char>, c: char) -> int
    decreases text.len(),
{
    if text.len() == 0 {
        -1
    } else if text.last() == c {
        text.len() - 1
    } else {
        last_index_of(text.drop_last(), c)
    }
}

/// [`last_index_of`] gives a position of `c` after which there is no other, or
/// -1 where `c` does not stand in the text.
pub proof fn last_index_of_is_last(text: Seq<char>, c: char)
    ensures
        -1 <= last_index_of(text, c) < text.len(),
        last_index_of(text, c) >= 0 ==> text[last_index_of(text, c)] == c,
        forall|i: int| last_index_of(text, c) < i < text.len() ==> text[i] != c,
    decreases text.len(),
{
    if text.len() > 0 && text.last() != c {
        last_index_of_is_last(text.drop_last(), c);
        assert forall|i: int| last_index_of(text, c) < i < text.len() implies text[i] != c by {
            if i < text.len() - 1 {
                assert(text.drop_last()[i] == text[i]);
            }
        }
    }
}

/// The position of the last `c` in `chars`, if there is one.
pub fn find_last(chars: &Vec<char>, c: char) -> (found: Option<usize>)
    ensures
        match found {
            Some(i) => i == last_index_of(chars@, c),
            None => last_index_of(chars@, c) == -1,
        },
{
    let mut end: usize = chars.len();
    assert(chars@.subrange(0, end as int) =~= chars@);
    while end > 0
        invariant
            0 <= end <= chars@.len(),
            last_index_of(chars@, c) == last_index_of(chars@.subrange(0, end as int), c),
        decreases end,
    {
        if chars[end - 1] == c {
            return Some(end - 1);
        }
        assert(chars@.subrange(0, end as int).drop_last() =~= chars@.subrange(0, end - 1));
        end = end - 1;
    }
    None
}

/// `text` without the characters of `dropped` that stand at its end.
pub open spec fn trim_end(text: Seq<char>, dropped: Seq<char>) -> Seq<char>
    decreases text.len(),
{
    if text.len() > 0 && dropped.contains(text.last()) {
        trim_end(text.drop_last(), dropped)
    } else {
        text
    }
}

/// Where `chars` ends once the characters of `dropped` at its end are left out.
pub fn trimmed_len(chars: &Vec<char>, dropped: &Vec<char>) -> (end: usize)
    ensures
        end <= chars@.len(),
        chars@.subrange(0, end as int) == trim_end(chars@, dropped@),
{
    let mut end: usize = chars.len();
    assert(chars@.subrange(0, end as int) =~= chars@);
    while end > 0
        invariant
            0 <= end <= chars@.len(),
            trim_end(chars@, dropped@) == trim_end(chars@.subrange(0, end as int), dropped@),
        decreases end,
    {
        let last: char = chars[end - 1];
        let mut hit = false;
        let mut i: usize = 0;
        while i < dropped.len()
            invariant
                0 <= i <= dropped@.len(),
                hit == exists|j: int| 0 <= j < i && dropped@[j] == last,
            decreases dropped@.len() - i,
        {
            if dropped[i] == last {
                hit = true;
            }
            i = i + 1;
        }
        assert(hit == dropped@.contains(last));
        assert(chars@.subrange(0, end as int).last() == last);
        if !hit {
            return end;
        }
        assert(chars@.subrange(0, end as int).drop_last() =~= chars@.subrange(0, end - 1));
        end = end - 1;
    }
    end
}

/// The characters with the Unicode property `White_Space`.
pub open spec fn is_space(c: char) -> bool {
    ||| '\u{9}' <= c <= '\u{d}'
    ||| c == '\u{20}'
    ||| c == '\u{85}'
    ||| c == '\u{a0}'
    ||| c == '\u{1680}'
    ||| '\u{2000}' <= c <= '\u{200a}'
    ||| c == '\u{2028}'
    ||| c == '\u{2029}'
    ||| c == '\u{202f}'
    ||| c == '\u{205f}'
    ||| c == '\u{3000}'
}

/// Whether `c` has the Unicode property `White_Space`.
pub fn is_whitespace(c: char) -> (space: bool)
    ensures
        space == is_space(c),
{
    ('\u{9}' <= c && c <= '\u{d}') || c == '\u{20}' || c == '\u{85}' || c == '\u{a0}' || c
        == '\u{1680}' || ('\u{2000}' <= c && c <= '\u{200a}') || c == '\u{2028}' || c == '\u{2029}'
        || c == '\u{202f}' || c == '\u{205f}' || c == '\u{3000}'
}

/// Where the word that `text[from]` belongs to ends.
pub open spec fn word_end(text: Seq<char>, from: int) -> int
    decreases text.len() - from,
{
    if from < 0 || from >= text.len() || is_space(text[from]) {
        from
    } else {
        word_end(text, from + 1)
    }
}

/// The words of `text` from position `from` on: the longest runs of characters
/// that are no white space.
pub open spec fn words_from(text: Seq<char>, from: int) -> Seq<Seq<char>>
    decreases text.len() - from,
{
    if from < 0 || from >= text.len() {
        Seq::empty()
    } else if is_space(text[from]) {
        words_from(text, from + 1)
    } else {
        let end = word_end(text, from);
        if from < end <= text.len() {
            seq![text.subrange(from, end)] + words_from(text, end)
        } else {
            Seq::empty()
        }
    }
}

/// The words of `text`.
pub open spec fn words(text: Seq<char>) -> Seq<Seq<char>> {
    words_from(text, 0)
}

/// A word reaches at least one character further, and over no white space.
pub proof fn word_end_is_first_space(text: Seq<char>, from: int)
    requires
        0 <= from <= text.len(),
    ensures
        from <= word_end(text, from) <= text.len(),
        word_end(text, from) < text.len() ==> is_space(text[word_end(text, from)]),
        forall|i: int| from <= i < word_end(text, from) ==> !is_space(#[trigger] text[i]),
    decreases text.len() - from,
{
    if from < text.len() && !is_space(text[from]) {
        word_end_is_first_space(text, from + 1);
    }
}

/// The words of `chars`.
pub fn split_words(chars: &Vec<char>) -> (out: Vec<String>)
    ensures
        texts(out@) == words(chars@),
{
    let mut out: Vec<String> = Vec::new();
    let mut i: usize = 0;
    assert(texts(out@) + words_from(chars@, 0) =~= words(chars@));
    while i < chars.len()
        invariant
            0 <= i <= chars@.len(),
            texts(out@) + words_from(chars@, i as int) == words(chars@),
        decreases chars@.len() - i,
    {
        if is_whitespace(chars[i]) {
            i = i + 1;
        } else {
            let start: usize = i;
            i = i + 1;
            while i < chars.len() && !is_whitespace(chars[i])
                invariant
                    start < i <= chars@.len(),
                    word_end(chars@, start as int) == word_end(chars@, i as int),
                decreases chars@.len() - i,
            {
                i = i + 1;
            }
            let ghost before = texts(out@);
            let word = text_between(chars, start, i);
            out.push(word);
            proof {
                assert(texts(out@) =~= before.push(word@));
                let w = chars@.subrange(start as int, i as int);
                assert(before.push(w) + words_from(chars@, i as int) =~= before + (seq![w]
                    + words_from(chars@, i as int)));
            }
        }
    }
    assert(texts(out@) + words_from(chars@, i as int) =~= texts(out@));
    out
}

/// Where the line that position `from` lies in ends: at the next line feed or
/// at the end of the text.
pub open spec fn line_end(text: Seq<char>, from: int) -> int
    decreases text.len() - from,
{
    if from < 0 || from >= text.len() || text[from] == '\n' {
        from
    } else {
        line_end(text, from + 1)
    }
}

/// A line without the carriage return that a line feed may have before it.
pub open spec fn without_return(line: Seq<char>) -> Seq<char> {
    if line.len() > 0 && line.last() == '\r' {
        line.drop_last()
    } else {
        line
    }
}

/// The lines of `text` from position `from` on. A line ends with a line feed or
/// with a carriage return and a line feed; the last one may end with the text.
pub open spec fn lines_from(text: Seq<char>, from: int) -> Seq<Seq<char>>
    decreases text.len() - from,
{
    if from < 0 || from >= text.len() {
        Seq::empty()
    } else {
        let end = line_end(text, from);
        if end >= text.len() {
            seq![text.subrange(from, text.len() as int)]
        } else if end < from {
            Seq::empty()
        } else {
            seq![without_return(text.subrange(from, end))] + lines_from(text, end + 1)
        }
    }
}

/// The lines of `text`.
pub open spec fn lines(text: Seq<char>) -> Seq<Seq<char>> {
    lines_from(text, 0)
}

/// The lines of `text`.
pub fn split_lines(text: &str) -> (out: Vec<String>)
    ensures
        texts(out@) == lines(text@),
{
    let chars = chars_of(text);
    let mut out: Vec<String> = Vec::new();
    let mut start: usize = 0;
    assert(texts(out@) + lines_from(chars@, 0) =~= lines(text@));
    while start < chars.len()
        invariant
            0 <= start <= chars@.len(),
            chars@ == text@,
            texts(out@) + lines_from(chars@, start as int) == lines(text@),
        decreases chars@.len() - start,
    {
        let mut end: usize = start;
        while end < chars.len() && chars[end] != '\n'
            invariant
                start <= end <= chars@.len(),
                line_end(chars@, start as int) == line_end(chars@, end as int),
            decreases chars@.len() - end,
        {
            end = end + 1;
        }
        let ghost before = texts(out@);
        if end == chars.len() {
            let line = text_between(&chars, start, end);
            out.push(line);
            assert(texts(out@) =~= before + lines_from(chars@, start as int));
            return out;
        }
        let stop: usize = if end > start && chars[end - 1] == '\r' {
            end - 1
        } else {
            end
        };
        let line = text_between(&chars, start, stop);
        out.push(line);
        proof {
            let raw = chars@.subrange(start as int, end as int);
            assert(line@ =~= without_return(raw));
            assert(texts(out@) =~= before.push(line@));
            assert(before.push(line@) + lines_from(chars@, end + 1) =~= before + (seq![line@]
                + lines_from(chars@, end + 1)));
        }
        start = end + 1;
    }
    assert(texts(out@) + lines_from(chars@, start as int) =~= texts(out@));
    out
}

/// `c` is one of `0` to `9`.
pub open spec fn is_digit(c: char) -> bool {
    '0' <= c <= '9'
}

/// The number that a row of digits stands for.
pub open spec fn decimal_value(digits: Seq<char>) -> nat
    decreases digits.len(),
{
    if digits.len() == 0 {
        0
    } else {
        10 * decimal_value(digits.drop_last()) + (digits.last() as nat - '0' as nat) as nat
    }
}

/// At least one character, and digits only.
pub open spec fn is_decimal(text: Seq<char>) -> bool {
    text.len() > 0 && forall|i: int| 0 <= i < text.len() ==> is_digit(#[trigger] text[i])
}

/// `text` without a leading plus sign.
pub open spec fn without_plus(text: Seq<char>) -> Seq<char> {
    if text.len() > 0 && text[0] == '+' {
        text.skip(1)
    } else {
        text
    }
}

/// The unsigned 64-bit number that `text` writes out: digits, after a plus sign
/// or without one, whose value fits.
pub open spec fn u64_value(text: Seq<char>) -> Option<u64> {
    let digits = without_plus(text);
    if is_decimal(digits) && decimal_value(digits) <= u64::MAX {
        Some(decimal_value(digits) as u64)
    } else {
        None
    }
}

/// More digits make no smaller number.
proof fn decimal_value_grows(digits: Seq<char>, upto: int)
    requires
        0 <= upto <= digits.len(),
    ensures
        decimal_value(digits.subrange(0, upto)) <= decimal_value(digits),
    decreases digits.len() - upto,
{
    if upto < digits.len() {
        assert(digits.subrange(0, upto + 1).drop_last() =~= digits.subrange(0, upto));
        decimal_value_grows(digits, upto + 1);
    } else {
        assert(digits.subrange(0, upto) =~= digits);
    }
}

/// The unsigned 64-bit number that `text` writes out, if it writes one out.
pub fn parse_u64(text: &str) -> (value: Option<u64>)
    ensures
        value == u64_value(text@),
{
    let chars = chars_of(text);
    let start: usize = if chars.len() > 0 && chars[0] == '+' {
        1
    } else {
        0
    };
    let ghost digits = without_plus(text@);
    assert(digits =~= chars@.subrange(start as int, chars@.len() as int));
    if start == chars.len() {
        return None;
    }
    let mut value: u64 = 0;
    let mut i: usize = start;
    while i < chars.len()
        invariant
            start <= i <= chars@.len(),
            start <= 1,
            digits == chars@.subrange(start as int, chars@.len() as int),
            digits == without_plus(text@),
            value == decimal_value(digits.subrange(0, i - start)),
            forall|j: int| 0 <= j < i - start ==> is_digit(#[trigger] digits[j]),
        decreases chars@.len() - i,
    {
        let c: char = chars[i];
        assert(digits[i - start] == c);
        if !('0' <= c && c <= '9') {
            return None;
        }
        let digit: u64 = c as u64 - '0' as u64;
        proof {
            let upto = i - start + 1;
            assert(digits.subrange(0, upto).drop_last() =~= digits.subrange(0, upto - 1));
            assert(decimal_value(digits.subrange(0, upto)) == 10 * value + digit);
            decimal_value_grows(digits, upto);
        }
        if value > (u64::MAX - digit) / 10 {
            return None;
        }
        value = value * 10 + digit;
        i = i + 1;
    }
    assert(digits.subrange(0, i - start) =~= digits);
    Some(value)
}

/// The digit for a number below ten.
pub open spec fn digit_char(digit: nat) -> char {
    ('0' as nat + digit) as char
}

/// A number written out in decimal, without leading zeros.
pub open spec fn decimal(number: nat) -> Seq<char>
    decreases number,
{
    if number < 10 {
        seq![digit_char(number)]
    } else {
        decimal(number / 10).push(digit_char(number % 10))
    }
}

/// Reading back a number that was written out gives that number.
pub proof fn decimal_reads_back(number: nat)
    ensures
        is_decimal(decimal(number)),
        decimal_value(decimal(number)) == number,
    decreases number,
{
    if number < 10 {
        assert(decimal(number).drop_last() =~= Seq::<char>::empty());
        assert(decimal_value(decimal(number).drop_last()) == 0);
    } else {
        decimal_reads_back(number / 10);
        assert(decimal(number).drop_last() =~= decimal(number / 10));
    }
}

/// `number` written out in decimal.
pub fn write_decimal(number: u128) -> (out: String)
    ensures
        out@ == decimal(number as nat),
    decreases number,
{
    let digit: u8 = (number % 10) as u8;
    let last: char = (48 + digit) as char;
    assert(last == digit_char((number % 10) as nat));
    if number < 10 {
        let mut out = String::new();
        out.push(last);
        assert(out@ =~= decimal(number as nat));
        out
    } else {
        let mut out = write_decimal(number / 10);
        out.push(last);
        out
    }
}

/// Every word has a character, and none that is white space.
pub proof fn words_have_no_space(text: Seq<char>, from: int, k: int)
    requires
        0 <= from <= text.len(),
        0 <= k < words_from(text, from).len(),
    ensures
        words_from(text, from)[k].len() > 0,
        forall|i: int|
            0 <= i < words_from(text, from)[k].len() ==> !is_space(
                #[trigger] words_from(text, from)[k][i],
            ),
    decreases text.len() - from,
{
    if is_space(text[from]) {
        words_have_no_space(text, from + 1, k);
    } else {
        let end = word_end(text, from);
        word_end_is_first_space(text, from);
        word_end_is_first_space(text, from + 1);
        if k > 0 {
            words_have_no_space(text, end, k - 1);
        }
    }
}

/// White space parts words: the words of two texts with a white space between
/// them are those of the first and then those of the second.
pub proof fn space_parts_words(a: Seq<char>, space: char, b: Seq<char>)
    requires
        is_space(space),
    ensures
        words(a + seq![space] + b) == words(a) + words(b),
{
    space_parts_words_from(a, space, b, 0);
}

proof fn space_parts_words_from(a: Seq<char>, space: char, b: Seq<char>, from: int)
    requires
        is_space(space),
        0 <= from <= a.len(),
    ensures
        words_from(a + seq![space] + b, from) == words_from(a, from) + words(b),
    decreases a.len() - from,
{
    let all = a + seq![space] + b;
    if from == a.len() {
        assert(all[from] == space);
        words_after_front(a + seq![space], b, 0);
        assert(words_from(a, from) + words(b) =~= words(b));
    } else {
        assert(all[from] == a[from]);
        if is_space(a[from]) {
            space_parts_words_from(a, space, b, from + 1);
        } else {
            word_end_before_space(a, space, b, from);
            word_end_is_first_space(a, from);
            word_end_is_first_space(a, from + 1);
            let end = word_end(a, from);
            space_parts_words_from(a, space, b, end);
            assert(all.subrange(from, end) =~= a.subrange(from, end));
            assert(seq![a.subrange(from, end)] + (words_from(a, end) + words(b)) =~= (seq![
                a.subrange(from, end),
            ] + words_from(a, end)) + words(b));
        }
    }
}

/// A word of the first text ends where it does without the second.
proof fn word_end_before_space(a: Seq<char>, space: char, b: Seq<char>, from: int)
    requires
        is_space(space),
        0 <= from <= a.len(),
    ensures
        word_end(a + seq![space] + b, from) == word_end(a, from),
    decreases a.len() - from,
{
    let all = a + seq![space] + b;
    if from == a.len() {
        assert(all[from] == space);
    } else {
        assert(all[from] == a[from]);
        if !is_space(a[from]) {
            word_end_before_space(a, space, b, from + 1);
        }
    }
}

/// Words behind a front part are the words of the rest.
proof fn words_after_front(front: Seq<char>, rest: Seq<char>, from: int)
    requires
        0 <= from <= rest.len(),
    ensures
        words_from(front + rest, front.len() + from) == words_from(rest, from),
    decreases rest.len() - from,
{
    let all = front + rest;
    let at = front.len() + from;
    if from < rest.len() {
        assert(all[at] == rest[from]);
        if is_space(rest[from]) {
            words_after_front(front, rest, from + 1);
        } else {
            word_end_after_front(front, rest, from);
            word_end_is_first_space(rest, from);
            word_end_is_first_space(rest, from + 1);
            let end = word_end(rest, from);
            words_after_front(front, rest, end);
            assert(all.subrange(at, front.len() + end) =~= rest.subrange(from, end));
        }
    }
}

/// A word behind a front part ends where it does in the rest.
proof fn word_end_after_front(front: Seq<char>, rest: Seq<char>, from: int)
    requires
        0 <= from <= rest.len(),
    ensures
        word_end(front + rest, front.len() + from) == front.len() + word_end(rest, from),
    decreases rest.len() - from,
{
    if from < rest.len() {
        assert((front + rest)[front.len() + from] == rest[from]);
        if !is_space(rest[from]) {
            word_end_after_front(front, rest, from + 1);
        }
    }
}

/// At least one character, and none that is white space.
pub open spec fn is_word(word: Seq<char>) -> bool {
    word.len() > 0 && forall|i: int| 0 <= i < word.len() ==> !is_space(#[trigger] word[i])
}

/// A word is its own only word.
pub proof fn word_is_one_word(word: Seq<char>)
    requires
        is_word(word),
    ensures
        words(word) == seq![word],
{
    word_end_is_first_space(word, 0);
    let end = word_end(word, 0);
    assert(end == word.len());
    assert(word.subrange(0, end) =~= word);
    assert(words_from(word, end) =~= Seq::empty());
    assert(seq![word] + Seq::<Seq<char>>::empty() =~= seq![word]);
}

/// Words in a row, with one blank between each two.
pub open spec fn spaced(list: Seq<Seq<char>>) -> Seq<char>
    decreases list.len(),
{
    if list.len() == 0 {
        Seq::empty()
    } else if list.len() == 1 {
        list[0]
    } else {
        spaced(list.drop_last()) + seq![' '] + list.last()
    }
}

/// The words of words in a row are those words.
pub proof fn spaced_words_read_back(list: Seq<Seq<char>>)
    requires
        forall|i: int| 0 <= i < list.len() ==> is_word(#[trigger] list[i]),
    ensures
        words(spaced(list)) == list,
    decreases list.len(),
{
    if list.len() == 0 {
        assert(words(spaced(list)) =~= list);
    } else if list.len() == 1 {
        word_is_one_word(list[0]);
        assert(seq![list[0]] =~= list);
    } else {
        let front = list.drop_last();
        assert forall|i: int| 0 <= i < front.len() implies is_word(#[trigger] front[i]) by {
            assert(front[i] == list[i]);
        }
        spaced_words_read_back(front);
        assert(is_word(list[list.len() - 1]));
        word_is_one_word(list.last());
        space_parts_words(spaced(front), ' ', list.last());
        assert(front + seq![list.last()] =~= list);
    }
}

/// Lines behind a front part are the lines of the rest.
pub proof fn lines_after_front(front: Seq<char>, rest: Seq<char>, from: int)
    requires
        0 <= from <= rest.len(),
    ensures
        lines_from(front + rest, front.len() + from) == lines_from(rest, from),
    decreases rest.len() - from,
{
    if from < rest.len() {
        let all = front + rest;
        let at = front.len() + from;
        line_end_after_front(front, rest, from);
        line_end_in_range(rest, from);
        let end = line_end(rest, from);
        if end < rest.len() {
            lines_after_front(front, rest, end + 1);
            assert(all.subrange(at, front.len() + end) =~= rest.subrange(from, end));
        } else {
            assert(all.subrange(at, all.len() as int) =~= rest.subrange(from, rest.len() as int));
        }
    }
}

proof fn line_end_after_front(front: Seq<char>, rest: Seq<char>, from: int)
    requires
        0 <= from <= rest.len(),
    ensures
        line_end(front + rest, front.len() + from) == front.len() + line_end(rest, from),
    decreases rest.len() - from,
{
    if from < rest.len() {
        assert((front + rest)[front.len() + from] == rest[from]);
        if rest[from] != '\n' {
            line_end_after_front(front, rest, from + 1);
        }
    }
}

/// A line ends at a line feed or at the end of the text.
pub proof fn line_end_in_range(text: Seq<char>, from: int)
    requires
        0 <= from <= text.len(),
    ensures
        from <= line_end(text, from) <= text.len(),
        line_end(text, from) < text.len() ==> text[line_end(text, from)] == '\n',
    decreases text.len() - from,
{
    if from < text.len() && text[from] != '\n' {
        line_end_in_range(text, from + 1);
    }
}

/// A line of a text ends where it does when a line feed and more text follow.
pub proof fn line_end_before_feed(a: Seq<char>, b: Seq<char>, from: int)
    requires
        0 <= from <= a.len(),
    ensures
        line_end(a + seq!['\n'] + b, from) == line_end(a, from),
    decreases a.len() - from,
{
    let all = a + seq!['\n'] + b;
    if from == a.len() {
        assert(all[from] == '\n');
    } else {
        assert(all[from] == a[from]);
        if a[from] != '\n' {
            line_end_before_feed(a, b, from + 1);
        }
    }
}

/// A text without a line feed that does not end with a carriage return.
pub open spec fn is_line(line: Seq<char>) -> bool {
    &&& forall|i: int| 0 <= i < line.len() ==> #[trigger] line[i] != '\n'
    &&& line.len() > 0 ==> line.last() != '\r'
}

/// A line is its own only line, unless it is empty.
pub proof fn line_is_one_line(line: Seq<char>)
    requires
        is_line(line),
        line.len() > 0,
    ensures
        lines(line) == seq![line],
{
    line_end_in_range(line, 0);
    assert(line.subrange(0, line.len() as int) =~= line);
}

/// The lines of a line, a line feed and more text are the line and then those of
/// the text.
pub proof fn line_comes_first(line: Seq<char>, rest: Seq<char>)
    requires
        is_line(line),
    ensures
        lines(line + seq!['\n'] + rest) == seq![line] + lines(rest),
{
    let all = line + seq!['\n'] + rest;
    line_end_before_feed(line, rest, 0);
    line_end_in_range(line, 0);
    let end = line_end(line, 0);
    assert(end == line.len());
    assert(all.subrange(0, end) =~= line);
    assert(without_return(line) == line);
    lines_after_front(line + seq!['\n'], rest, 0);
}

/// Small letters stand in the place of capitals, 32 further on in the code; every
/// other character of the text stays.
pub proof fn capitals_become_small(text: Seq<char>, i: int)
    requires
        0 <= i < text.len(),
    ensures
        ascii_lowercase(text).len() == text.len(),
        65 <= text[i] as u32 <= 90 ==> ascii_lowercase(text)[i] as u32 == text[i] as u32 + 32,
        !(65 <= text[i] as u32 <= 90) ==> ascii_lowercase(text)[i] == text[i],
{
}

proof fn code_of_ascii(c: char)
    ensures
        c <= '\u{7f}' ==> (c as u32) < 128,
{
}

/// A text of ASCII and Chinese characters is lowered character by character.
pub proof fn plain_text_is_lowered_by_character(text: Seq<char>, i: int)
    requires
        forall|k: int|
            0 <= k < text.len() ==> #[trigger] text[k] <= '\u{7f}' || '\u{4e00}' <= text[k]
                <= '\u{9fff}' || '\u{3000}' <= text[k] <= '\u{303f}' || '\u{ff01}' <= text[k]
                <= '\u{ff20}',
        0 <= i < text.len(),
    ensures
        lowercase(text).len() == text.len(),
        65 <= text[i] as u32 <= 90 ==> lowercase(text)[i] as u32 == text[i] as u32 + 32,
        !(65 <= text[i] as u32 <= 90) ==> lowercase(text)[i] == text[i],
{
    assert forall|k: int| 0 <= k < text.len() implies (#[trigger] text[k] as u32) < 128
        || is_caseless(text[k]) by {
        code_of_ascii(text[k]);
    }
    assert(has_plain_case(text));
}

/// A part stands in a text just where the text is something, the part, and something.
pub proof fn parts_stand_between(before: Seq<char>, part: Seq<char>, after: Seq<char>)
    ensures
        contains(before + part + after, part),
        starts_with(part + after, part),
{
    let text = before + part + after;
    assert(text.subrange(before.len() as int, (before.len() + part.len()) as int) =~= part);
    assert(occurs_at(text, part, before.len() as int));
    assert((part + after).subrange(0, part.len() as int) =~= part);
}

/// Where a part stands in a text, the text is something, the part, and something;
/// where it begins the text, there is nothing before it.
pub proof fn text_is_around_its_parts(text: Seq<char>, part: Seq<char>)
    ensures
        contains(text, part) ==> exists|before: Seq<char>, after: Seq<char>|
            text == #[trigger] (before + part + after),
        starts_with(text, part) ==> exists|after: Seq<char>| text == #[trigger] (part + after),
{
    if contains(text, part) {
        let at = choose|at: int| #[trigger] occurs_at(text, part, at);
        let before = text.take(at);
        let after = text.skip(at + part.len());
        assert(text =~= before + text.subrange(at, at + part.len()) + after);
        assert(text == before + part + after);
    }
    if starts_with(text, part) {
        let after = text.skip(part.len() as int);
        assert(text =~= text.subrange(0, part.len() as int) + after);
        assert(text == part + after);
    }
}

/// Trimming cuts off the end of a text: all that is cut off are characters to drop,
/// and the last one that stays is none.
pub proof fn trimming_cuts_off_the_end(text: Seq<char>, dropped: Seq<char>)
    ensures
        ({
            let out = trim_end(text, dropped);
            &&& out.len() <= text.len()
            &&& out == text.take(out.len() as int)
            &&& out.len() > 0 ==> !dropped.contains(out[out.len() - 1])
            &&& forall|i: int| out.len() <= i < text.len() ==> dropped.contains(#[trigger] text[i])
        }),
    decreases text.len(),
{
    if text.len() > 0 && dropped.contains(text.last()) {
        let front = text.drop_last();
        trimming_cuts_off_the_end(front, dropped);
        let out = trim_end(text, dropped);
        assert(out =~= text.take(out.len() as int));
        assert forall|i: int| out.len() <= i < text.len() implies dropped.contains(
            #[trigger] text[i],
        ) by {
            if i < front.len() {
                assert(front[i] == text[i]);
            }
        }
    } else {
        assert(text.take(text.len() as int) =~= text);
    }
}

/// A text of white space alone has no words.
pub proof fn white_space_has_no_words(text: Seq<char>)
    requires
        forall|i: int| 0 <= i < text.len() ==> is_space(#[trigger] text[i]),
    ensures
        words(text) == Seq::<Seq<char>>::empty(),
{
    white_space_has_no_words_from(text, 0);
}

proof fn white_space_has_no_words_from(text: Seq<char>, from: int)
    requires
        forall|i: int| 0 <= i < text.len() ==> is_space(#[trigger] text[i]),
        0 <= from <= text.len(),
    ensures
        words_from(text, from) == Seq::<Seq<char>>::empty(),
    decreases text.len() - from,
{
    if from < text.len() {
        assert(is_space(text[from]));
        white_space_has_no_words_from(text, from + 1);
    }
}

/// White space before and after a text adds no words.
pub proof fn white_space_around_adds_no_words(before: Seq<char>, text: Seq<char>, after: Seq<char>)
    requires
        forall|i: int| 0 <= i < before.len() ==> is_space(#[trigger] before[i]),
        forall|i: int| 0 <= i < after.len() ==> is_space(#[trigger] after[i]),
    ensures
        words(before + text + after) == words(text),
{
    let middle = text + after;
    if after.len() > 0 {
        let rest = after.skip(1);
        assert forall|i: int| 0 <= i < rest.len() implies is_space(#[trigger] rest[i]) by {
            assert(rest[i] == after[i + 1]);
        }
        assert(is_space(after[0]));
        space_parts_words(text, after[0], rest);
        white_space_has_no_words(rest);
        assert(text + seq![after[0]] + rest =~= middle);
        assert(words(text) + Seq::<Seq<char>>::empty() =~= words(text));
    } else {
        assert(middle =~= text);
    }
    if before.len() > 0 {
        let front = before.drop_last();
        assert forall|i: int| 0 <= i < front.len() implies is_space(#[trigger] front[i]) by {
            assert(front[i] == before[i]);
        }
        assert(is_space(before[before.len() - 1]));
        space_parts_words(front, before.last(), middle);
        white_space_has_no_words(front);
        assert(front + seq![before.last()] + middle =~= before + text + after);
        assert(Seq::<Seq<char>>::empty() + words(middle) =~= words(middle));
    } else {
        assert(before + text + after =~= middle);
    }
}

/// Words in a row, with white space before each and after the last.
pub open spec fn spread(list: Seq<Seq<char>>, gaps: Seq<Seq<char>>) -> Seq<char>
    decreases list.len(),
{
    if list.len() == 0 {
        gaps[0]
    } else {
        spread(list.drop_last(), gaps.drop_last()) + list.last() + gaps.last()
    }
}

/// However much white space stands between words, the words are those words.
pub proof fn spread_words_read_back(list: Seq<Seq<char>>, gaps: Seq<Seq<char>>)
    requires
        forall|i: int| 0 <= i < list.len() ==> is_word(#[trigger] list[i]),
        gaps.len() == list.len() + 1,
        forall|i: int, j: int|
            0 <= i < gaps.len() && 0 <= j < gaps[i].len() ==> is_space(#[trigger] gaps[i][j]),
        forall|i: int| 0 < i < list.len() ==> (#[trigger] gaps[i]).len() > 0,
    ensures
        words(spread(list, gaps)) == list,
    decreases list.len(),
{
    if list.len() == 0 {
        assert forall|i: int| 0 <= i < gaps[0].len() implies is_space(#[trigger] gaps[0][i]) by {}
        white_space_has_no_words(gaps[0]);
        assert(list =~= Seq::empty());
    } else {
        let front = list.drop_last();
        let front_gaps = gaps.drop_last();
        let word = list.last();
        let end = gaps.last();
        assert forall|i: int| 0 <= i < front.len() implies is_word(#[trigger] front[i]) by {
            assert(front[i] == list[i]);
        }
        assert forall|i: int, j: int| 0 <= i < front_gaps.len() && 0 <= j < front_gaps[i].len()
            implies is_space(#[trigger] front_gaps[i][j]) by {
            assert(front_gaps[i] == gaps[i]);
            assert(is_space(gaps[i][j]));
        }
        assert forall|i: int| 0 < i < front.len() implies (#[trigger] front_gaps[i]).len() > 0 by {
            assert(front_gaps[i] == gaps[i]);
        }
        spread_words_read_back(front, front_gaps);
        assert(is_word(list[list.len() - 1]));
        word_is_one_word(word);
        let before = spread(front, front_gaps);
        assert forall|i: int| 0 <= i < end.len() implies is_space(#[trigger] end[i]) by {
            assert(end == gaps[gaps.len() - 1]);
            assert(is_space(gaps[gaps.len() - 1][i]));
        }
        let none = Seq::<char>::empty();
        white_space_around_adds_no_words(none, word, end);
        assert(none + word + end =~= word + end);
        if front.len() == 0 {
            assert(before == gaps[0]);
            assert forall|i: int| 0 <= i < before.len() implies is_space(#[trigger] before[i]) by {
                assert(is_space(gaps[0][i]));
            }
            white_space_around_adds_no_words(before, word, end);
            assert(seq![word] =~= list);
        } else {
            let gap = front_gaps.last();
            assert(gap == gaps[list.len() - 1]);
            assert(gap.len() > 0);
            spread_ends_in_gap(front, front_gaps);
            let cut = before.drop_last();
            let space = before.last();
            assert(space == gap[gap.len() - 1]);
            assert(is_space(gaps[list.len() - 1][gap.len() - 1]));
            space_parts_words(cut, space, word + end);
            space_parts_words(cut, space, none);
            assert(cut + seq![space] + none =~= before);
            assert(words(none) =~= Seq::empty());
            assert(words(cut) + words(none) =~= words(cut));
            assert(cut + seq![space] + (word + end) =~= before + word + end);
            assert(front + seq![word] =~= list);
        }
    }
}

proof fn spread_ends_in_gap(list: Seq<Seq<char>>, gaps: Seq<Seq<char>>)
    requires
        gaps.len() == list.len() + 1,
        gaps.last().len() > 0,
    ensures
        spread(list, gaps).len() > 0,
        spread(list, gaps).last() == gaps.last().last(),
{
}

/// An empty text has no lines.
pub proof fn nothing_has_no_lines()
    ensures
        lines(Seq::<char>::empty()) == Seq::<Seq<char>>::empty(),
{
}

/// Text up to the first line feed is the first line, without one carriage return at
/// its end; the rest has the other lines.
pub proof fn first_line_ends_at_the_feed(line: Seq<char>, rest: Seq<char>)
    requires
        forall|i: int| 0 <= i < line.len() ==> #[trigger] line[i] != '\n',
    ensures
        line.len() > 0 && line[line.len() - 1] == '\r' ==> lines(line + seq!['\n'] + rest) == seq![
            line.take(line.len() - 1),
        ] + lines(rest),
        line.len() == 0 || line[line.len() - 1] != '\r' ==> lines(line + seq!['\n'] + rest)
            == seq![line] + lines(rest),
        line.len() > 0 ==> lines(line) == seq![line],
{
    let all = line + seq!['\n'] + rest;
    line_end_before_feed(line, rest, 0);
    line_end_in_range(line, 0);
    let end = line_end(line, 0);
    assert(end == line.len());
    assert(all.subrange(0, end) =~= line);
    lines_after_front(line + seq!['\n'], rest, 0);
    if line.len() > 0 {
        assert(line.drop_last() =~= line.take(line.len() - 1));
        assert(line.subrange(0, line.len() as int) =~= line);
    }
}

/// Each further digit makes the number ten times as large and adds the digit.
pub proof fn digits_count_by_ten(digits: Seq<char>, c: char)
    requires
        '0' <= c <= '9',
    ensures
        decimal_value(Seq::<char>::empty()) == 0,
        decimal_value(digits.push(c)) == 10 * decimal_value(digits) + (c as u32 - '0' as u32),
{
    assert(digits.push(c).drop_last() =~= digits);
}

/// A row of digits reads as its number, with a plus sign before it or without,
/// where the number fits; else as none.
pub proof fn digits_read_as_their_number(digits: Seq<char>)
    requires
        digits.len() > 0,
        forall|i: int| 0 <= i < digits.len() ==> '0' <= #[trigger] digits[i] <= '9',
    ensures
        decimal_value(digits) <= u64::MAX ==> (u64_value(digits) matches Some(n) && n
            == decimal_value(digits)),
        decimal_value(digits) <= u64::MAX ==> (u64_value(seq!['+'] + digits) matches Some(n) && n
            == decimal_value(digits)),
        decimal_value(digits) > u64::MAX ==> u64_value(digits) is None && u64_value(
            seq!['+'] + digits,
        ) is None,
{
    assert((seq!['+'] + digits).skip(1) =~= digits);
    assert('0' <= digits[0] <= '9');
}

/// Anything else than digits reads as no number: nothing, a sign alone, or a text
/// with another character, but for a plus sign at its front.
pub proof fn other_texts_read_as_no_number(text: Seq<char>, i: int)
    requires
        0 <= i < text.len(),
        !('0' <= text[i] <= '9'),
        i > 0 || text[i] != '+' || text.len() == 1,
    ensures
        u64_value(text) is None,
        u64_value(Seq::<char>::empty()) is None,
{
    let digits = without_plus(text);
    if text[0] == '+' {
        if i > 0 {
            assert(digits[i - 1] == text[i]);
        }
    } else {
        assert(digits[i] == text[i]);
    }
    assert(without_plus(Seq::<char>::empty()).len() == 0);
}

/// A number is written without a zero at its front, unless it is zero.
pub proof fn numbers_have_no_zero_at_the_front(number: nat)
    ensures
        decimal(number).len() > 0,
        number > 0 ==> decimal(number)[0] != '0',
        number < 10 ==> decimal(number).len() == 1,
    decreases number,
{
    if number >= 10 {
        numbers_have_no_zero_at_the_front(number / 10);
    }
}

/// The functions on texts give what is said of them here.
pub proof fn text_functions_give_this(
    text: &str,
    other: &str,
    chars: &Vec<char>,
    part: &Vec<char>,
    at: usize,
    c: char,
    number: u128,
    all: Vec<char>,
    same: bool,
    alike: bool,
    found: bool,
    has: bool,
    last: Option<usize>,
    end: usize,
    list: Vec<String>,
    rows: Vec<String>,
    value: Option<u64>,
    written: String,
    lower: char,
)
    requires
        call_ensures(chars_of, (text,), all),
        call_ensures(same_text, (text, other), same),
        call_ensures(same_ignoring_ascii_case, (text, other), alike),
        call_ensures(found_at, (chars, part, at), found),
        call_ensures(has_part, (chars, part), has),
        call_ensures(find_last, (chars, c), last),
        call_ensures(trimmed_len, (chars, part), end),
        call_ensures(split_words, (chars,), list),
        call_ensures(split_lines, (text,), rows),
        call_ensures(parse_u64, (text,), value),
        call_ensures(write_decimal, (number,), written),
        call_ensures(lower_char, (c,), lower),
    ensures
        all@ == text@,
        same == (text@ == other@),
        alike ==> text@.len() == other@.len(),
        alike ==> forall|i: int|
            0 <= i < text@.len() ==> ascii_lower(#[trigger] text@[i]) == ascii_lower(other@[i]),
        !alike && text@.len() == other@.len() ==> exists|i: int|
            0 <= i < text@.len() && ascii_lower(#[trigger] text@[i]) != ascii_lower(other@[i]),
        found ==> at + part@.len() <= chars@.len() && chars@.subrange(
            at as int,
            at + part@.len(),
        ) == part@,
        has == contains(chars@, part@),
        last matches Some(i) ==> i < chars@.len() && chars@[i as int] == c,
        last is None ==> !chars@.contains(c),
        end <= chars@.len(),
        chars@.take(end as int) == trim_end(chars@, part@),
        texts(list@) == words(chars@),
        texts(rows@) == lines(text@),
        value == u64_value(text@),
        decimal_value(written@) == number,
        is_decimal(written@),
        'A' <= c <= 'Z' ==> lower as u32 == c as u32 + 32,
        !('A' <= c <= 'Z') ==> lower == c,
{
    let x = ascii_lowercase(text@);
    let y = ascii_lowercase(other@);
    assert(x.len() == text@.len() && y.len() == other@.len());
    if alike {
        assert forall|i: int| 0 <= i < text@.len() implies ascii_lower(#[trigger] text@[i])
            == ascii_lower(other@[i]) by {
            assert(x[i] == y[i]);
        }
    } else if text@.len() == other@.len() {
        if forall|i: int|
            0 <= i < text@.len() ==> ascii_lower(#[trigger] text@[i]) == ascii_lower(other@[i]) {
            assert(x =~= y);
        }
    }
    last_index_of_is_last(chars@, c);
    decimal_reads_back(number as nat);
    assert(chars@.take(end as int) =~= chars@.subrange(0, end as int));
}

/// The texts of a list are all of its strings, in order.
pub proof fn texts_are_all_strings(list: Seq<String>, i: int)
    requires
        0 <= i < list.len(),
    ensures
        texts(list).len() == list.len(),
        texts(list)[i] == list[i]@,
{
}

/// Every word and every line that a text has is given, in order.
pub proof fn all_words_and_lines_are_given(
    chars: &Vec<char>,
    text: &str,
    list: Vec<String>,
    rows: Vec<String>,
    i: int,
)
    requires
        call_ensures(split_words, (chars,), list),
        call_ensures(split_lines, (text,), rows),
    ensures
        list@.len() == words(chars@).len(),
        rows@.len() == lines(text@).len(),
        0 <= i < list@.len() ==> list@[i]@ == words(chars@)[i],
        0 <= i < rows@.len() ==> rows@[i]@ == lines(text@)[i],
{
    assert(texts(list@).len() == list@.len());
    assert(texts(rows@).len() == rows@.len());
    if 0 <= i < list@.len() {
        assert(texts(list@)[i] == list@[i]@);
    }
    if 0 <= i < rows@.len() {
        assert(texts(rows@)[i] == rows@[i]@);
    }
}

} // verus!
