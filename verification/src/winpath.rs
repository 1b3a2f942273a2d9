//! Windows paths as texts: where a path's prefix ends, what its components are,
//! which of them is the file name, and how a path is joined or gets another
//! extension.
//!
//! The rules are those that Windows paths have on Windows, and they are applied
//! whatever system the code runs on.

use crate::text;
use crate::text::{chars_of, find_last, text_between};
use vstd::prelude::*;
use vstd::string::*;

verus! {

/// What a path can start with.
#[derive(Clone, Copy, PartialEq, Eq, Structural, Debug)]
pub enum PrefixKind {
    /// Nothing of the kinds below.
    Plain,
    /// `C:`
    Drive,
    /// `\\server\share` or `\\.\device`
    Share,
    /// `\\?\...`: read literally, with `\` as the only separator.
    Verbatim,
}

/// The prefix of a path: its kind and how many characters it takes.
#[derive(Clone, Copy, Debug)]
pub struct Prefix {
    pub kind: PrefixKind,
    pub len: usize,
}

/// A path separator.
pub open spec fn is_sep(c: char) -> bool {
    c == '\\' || c == '/'
}

/// A path separator, in a path that is read literally or in any other.
pub open spec fn separates(c: char, verbatim: bool) -> bool {
    c == '\\' || (c == '/' && !verbatim)
}

/// An ASCII letter.
pub open spec fn is_letter(c: char) -> bool {
    ('a' <= c <= 'z') || ('A' <= c <= 'Z')
}

/// The next separator at or after `from`, or the end of the path.
pub open spec fn next_sep(path: Seq<char>, from: int, verbatim: bool) -> int
    decreases path.len() - from,
{
    if from < 0 || from >= path.len() || separates(path[from], verbatim) {
        from
    } else {
        next_sep(path, from + 1, verbatim)
    }
}

/// Where the second of two components ends that stand at `from`, with one
/// separator between them. Where the second is empty or missing, the place
/// where the first ends.
pub open spec fn two_components_end(path: Seq<char>, from: int, verbatim: bool) -> int {
    let first = next_sep(path, from, verbatim);
    if first >= path.len() {
        first
    } else {
        let second = next_sep(path, first + 1, verbatim);
        if second == first + 1 {
            first
        } else {
            second
        }
    }
}

/// `\\?\` in just this form.
pub open spec fn has_verbatim_mark(path: Seq<char>) -> bool {
    path.len() >= 4 && path[0] == '\\' && path[1] == '\\' && path[2] == '?' && path[3] == '\\'
}

/// `UNC\` after `\\?\`.
pub open spec fn has_verbatim_share_mark(path: Seq<char>) -> bool {
    path.len() >= 8 && path[4] == 'U' && path[5] == 'N' && path[6] == 'C' && is_sep(path[7])
}

/// A drive and nothing more in the first component after `\\?\`.
pub open spec fn has_verbatim_drive(path: Seq<char>) -> bool {
    path.len() >= 6 && is_letter(path[4]) && path[5] == ':' && (path.len() == 6 || is_sep(path[6]))
}

/// `\\.\`
pub open spec fn has_device_mark(path: Seq<char>) -> bool {
    path.len() >= 4 && is_sep(path[0]) && is_sep(path[1]) && path[2] == '.' && is_sep(path[3])
}

/// `\\` and then the names of a server and of a share.
pub open spec fn has_share(path: Seq<char>) -> bool {
    &&& path.len() >= 2
    &&& is_sep(path[0])
    &&& is_sep(path[1])
    &&& next_sep(path, 2, false) > 2
    &&& two_components_end(path, 2, false) > next_sep(path, 2, false)
}

/// A letter and a colon.
pub open spec fn has_drive(path: Seq<char>) -> bool {
    path.len() >= 2 && is_letter(path[0]) && path[1] == ':'
}

/// The kind of a path's prefix.
pub open spec fn prefix_kind(path: Seq<char>) -> PrefixKind {
    if has_verbatim_mark(path) {
        PrefixKind::Verbatim
    } else if has_device_mark(path) || has_share(path) {
        PrefixKind::Share
    } else if has_drive(path) {
        PrefixKind::Drive
    } else {
        PrefixKind::Plain
    }
}

/// How many characters a path's prefix takes.
pub open spec fn prefix_len(path: Seq<char>) -> int {
    if has_verbatim_mark(path) {
        if has_verbatim_share_mark(path) {
            two_components_end(path, 8, true)
        } else if has_verbatim_drive(path) {
            6
        } else {
            next_sep(path, 4, true)
        }
    } else if has_device_mark(path) {
        next_sep(path, 4, false)
    } else if has_share(path) {
        two_components_end(path, 2, false)
    } else if has_drive(path) {
        2
    } else {
        0
    }
}

/// Whether the path is read literally.
pub open spec fn is_verbatim(path: Seq<char>) -> bool {
    prefix_kind(path) is Verbatim
}

/// A separator stands right after the prefix.
pub open spec fn has_root_sep(path: Seq<char>) -> bool {
    prefix_len(path) < path.len() && is_sep(path[prefix_len(path)])
}

/// The path starts at a root: it says so, or its prefix does.
pub open spec fn has_root(path: Seq<char>) -> bool {
    has_root_sep(path) || prefix_kind(path) is Share || prefix_kind(path) is Verbatim
}

/// The path, after its prefix, starts at the current directory and says so with a
/// dot.
pub open spec fn starts_with_dot(path: Seq<char>) -> bool {
    &&& !has_root(path)
    &&& prefix_len(path) < path.len()
    &&& path[prefix_len(path)] == '.'
    &&& (path.len() == prefix_len(path) + 1 || is_sep(path[prefix_len(path) + 1]))
}

/// Where the path's named components start.
pub open spec fn body_start(path: Seq<char>) -> int {
    prefix_len(path) + if has_root_sep(path) || starts_with_dot(path) {
        1int
    } else {
        0
    }
}

/// One component of a path.
#[verifier::ext_equal]
pub enum ComponentView {
    Prefix(Seq<char>),
    Root,
    Current,
    Parent,
    Name(Seq<char>),
}

/// What the characters between two separators stand for: nothing, or one
/// component.
pub open spec fn component(piece: Seq<char>, verbatim: bool) -> Seq<ComponentView> {
    if piece.len() == 0 {
        Seq::empty()
    } else if piece == seq!['.'] {
        if verbatim {
            seq![ComponentView::Current]
        } else {
            Seq::empty()
        }
    } else if piece == seq!['.', '.'] {
        seq![ComponentView::Parent]
    } else {
        seq![ComponentView::Name(piece)]
    }
}

/// The components from position `from` on.
pub open spec fn components_from(path: Seq<char>, from: int, verbatim: bool) -> Seq<ComponentView>
    decreases path.len() - from + 1,
{
    if from < 0 || from >= path.len() {
        Seq::empty()
    } else {
        let end = next_sep(path, from, verbatim);
        if from <= end <= path.len() {
            component(path.subrange(from, end), verbatim) + components_from(path, end + 1, verbatim)
        } else {
            Seq::empty()
        }
    }
}

/// The components of a path.
pub open spec fn components(path: Seq<char>) -> Seq<ComponentView> {
    let start = if prefix_kind(path) is Plain {
        Seq::<ComponentView>::empty()
    } else {
        seq![ComponentView::Prefix(path.subrange(0, prefix_len(path)))]
    };
    let root = if has_root_sep(path) || prefix_kind(path) is Share {
        seq![ComponentView::Root]
    } else if prefix_kind(path) is Plain && starts_with_dot(path) {
        seq![ComponentView::Current]
    } else {
        Seq::empty()
    };
    start + root + components_from(path, body_start(path), is_verbatim(path))
}

/// A list of components after one more step of a relative path: a root goes
/// back to the prefix, a dot stays, two dots go up from a name.
pub open spec fn step_into(list: Seq<ComponentView>, next: ComponentView) -> Seq<ComponentView> {
    match next {
        ComponentView::Root => if list.len() > 0 {
            seq![list[0], ComponentView::Root]
        } else {
            seq![ComponentView::Root]
        },
        ComponentView::Current => list,
        ComponentView::Parent => if list.len() > 0 && list.last() is Name {
            list.drop_last()
        } else {
            list
        },
        _ => list.push(next),
    }
}

/// A list of components after all steps of a relative path.
pub open spec fn step_through(list: Seq<ComponentView>, steps: Seq<ComponentView>) -> Seq<
    ComponentView,
>
    decreases steps.len(),
{
    if steps.len() == 0 {
        list
    } else {
        step_into(step_through(list, steps.drop_last()), steps.last())
    }
}

/// How a component is written.
pub open spec fn component_text(component: ComponentView) -> Seq<char> {
    match component {
        ComponentView::Prefix(text) => text,
        ComponentView::Root => seq!['\\'],
        ComponentView::Current => seq!['.'],
        ComponentView::Parent => seq!['.', '.'],
        ComponentView::Name(name) => name,
    }
}

/// A list of components written out, with a separator between any two of which
/// neither is the root.
pub open spec fn render(list: Seq<ComponentView>) -> Seq<char>
    decreases list.len(),
{
    if list.len() == 0 {
        Seq::empty()
    } else {
        let before = render(list.drop_last());
        let last = component_text(list.last());
        if list.len() > 1 && !(list.last() is Root) && !(list[list.len() - 2] is Root) {
            before + seq!['\\'] + last
        } else {
            before + last
        }
    }
}

/// A drive without anything after it.
pub open spec fn is_bare_drive(path: Seq<char>) -> bool {
    prefix_kind(path) is Drive && path.len() == 2
}

/// The path that `name` leads to from `base`.
pub open spec fn join(base: Seq<char>, name: Seq<char>) -> Seq<char> {
    if !(prefix_kind(name) is Plain) {
        name
    } else if is_verbatim(base) && name.len() > 0 {
        render(step_through(components(base), components(name)))
    } else if has_root(name) {
        base.subrange(0, prefix_len(base)) + name
    } else if base.len() > 0 && !is_sep(base.last()) && !is_bare_drive(base) {
        base + seq!['\\'] + name
    } else {
        base + name
    }
}

/// Where the last component that counts lies in `path[low..high]`: its start and
/// its end. Empty pieces do not count, nor does a single dot unless the path is
/// read literally.
pub open spec fn last_span(path: Seq<char>, low: int, high: int, verbatim: bool) -> Option<
    (int, int),
>
    decreases high - low,
{
    if low < 0 || high <= low || high > path.len() {
        None
    } else {
        let start = piece_start(path, low, high, verbatim);
        if component(path.subrange(start, high), verbatim).len() > 0 {
            Some((start, high))
        } else if low < start <= high {
            last_span(path, low, start - 1, verbatim)
        } else {
            None
        }
    }
}

/// Where the piece that ends at `high` starts: after the last separator in
/// `path[low..high]`, or at `low`.
pub open spec fn piece_start(path: Seq<char>, low: int, high: int, verbatim: bool) -> int
    decreases high - low,
{
    if low < 0 || high <= low || high > path.len() || separates(path[high - 1], verbatim) {
        high
    } else {
        piece_start(path, low, high - 1, verbatim)
    }
}

/// Where the file name lies in the path, if the path ends in one.
pub open spec fn name_span(path: Seq<char>) -> Option<(int, int)> {
    match last_span(path, body_start(path), path.len() as int, is_verbatim(path)) {
        Some((start, end)) => {
            let piece = path.subrange(start, end);
            if piece == seq!['.'] || piece == seq!['.', '.'] {
                None
            } else {
                Some((start, end))
            }
        },
        None => None,
    }
}

/// The file name: the last component, where that is a name.
pub open spec fn file_name(path: Seq<char>) -> Option<Seq<char>> {
    match name_span(path) {
        Some((start, end)) => Some(path.subrange(start, end)),
        None => None,
    }
}

/// How much of a file name comes before the dot of its extension: all of it
/// where there is no dot, or only one at the front.
pub open spec fn stem_len(name: Seq<char>) -> int {
    let dot = text::last_index_of(name, '.');
    if dot > 0 {
        dot
    } else {
        name.len() as int
    }
}

/// What a file name has after its last dot, unless that dot stands at the front.
pub open spec fn name_extension(name: Seq<char>) -> Option<Seq<char>> {
    if stem_len(name) < name.len() {
        Some(name.skip(stem_len(name) + 1))
    } else {
        None
    }
}

/// The extension of the path's file name.
pub open spec fn extension(path: Seq<char>) -> Option<Seq<char>> {
    match file_name(path) {
        Some(name) => name_extension(name),
        None => None,
    }
}

/// The path with another extension, or with none where `ext` is empty. A path
/// without a file name stays as it is.
pub open spec fn with_extension(path: Seq<char>, ext: Seq<char>) -> Seq<char> {
    match name_span(path) {
        Some((start, end)) => {
            let stem = path.subrange(0, start + stem_len(path.subrange(start, end)));
            if ext.len() == 0 {
                stem
            } else {
                stem + seq!['.'] + ext
            }
        },
        None => path,
    }
}

/// Whether `c` is a separator, in a path that is read literally or in any other.
fn is_separator(c: char, verbatim: bool) -> (yes: bool)
    ensures
        yes == separates(c, verbatim),
{
    c == '\\' || (c == '/' && !verbatim)
}

/// The next separator at or after `from`, or the end of the path.
fn find_sep(path: &Vec<char>, from: usize, verbatim: bool) -> (end: usize)
    requires
        from <= path@.len(),
    ensures
        end == next_sep(path@, from as int, verbatim),
        from <= end <= path@.len(),
        end < path@.len() ==> separates(path@[end as int], verbatim),
{
    let mut end: usize = from;
    while end < path.len() && !is_separator(path[end], verbatim)
        invariant
            from <= end <= path@.len(),
            next_sep(path@, from as int, verbatim) == next_sep(path@, end as int, verbatim),
        decreases path@.len() - end,
    {
        end = end + 1;
    }
    end
}

/// Where the second of two components ends that stand at `from`.
fn find_two_components(path: &Vec<char>, from: usize, verbatim: bool) -> (end: usize)
    requires
        from <= path@.len(),
    ensures
        end == two_components_end(path@, from as int, verbatim),
        from <= end <= path@.len(),
{
    let first = find_sep(path, from, verbatim);
    if first >= path.len() {
        return first;
    }
    let second = find_sep(path, first + 1, verbatim);
    if second == first + 1 {
        first
    } else {
        second
    }
}

/// The prefix of a path.
pub fn parse_prefix(path: &Vec<char>) -> (prefix: Prefix)
    ensures
        prefix.kind == prefix_kind(path@),
        prefix.len == prefix_len(path@),
        prefix.len <= path@.len(),
{
    let n: usize = path.len();
    if n >= 4 && path[0] == '\\' && path[1] == '\\' && path[2] == '?' && path[3] == '\\' {
        let len: usize = if n >= 8 && path[4] == 'U' && path[5] == 'N' && path[6] == 'C'
            && is_separator(path[7], false) {
            find_two_components(path, 8, true)
        } else if n >= 6 && is_drive_letter(path[4]) && path[5] == ':' && (n == 6 || is_separator(
            path[6],
            false,
        )) {
            6
        } else {
            find_sep(path, 4, true)
        };
        return Prefix { kind: PrefixKind::Verbatim, len };
    }
    if n >= 2 && is_separator(path[0], false) && is_separator(path[1], false) {
        if n >= 4 && path[2] == '.' && is_separator(path[3], false) {
            return Prefix { kind: PrefixKind::Share, len: find_sep(path, 4, false) };
        }
        let server = find_sep(path, 2, false);
        let share = find_two_components(path, 2, false);
        if server > 2 && share > server {
            return Prefix { kind: PrefixKind::Share, len: share };
        }
        return Prefix { kind: PrefixKind::Plain, len: 0 };
    }
    if n >= 2 && is_drive_letter(path[0]) && path[1] == ':' {
        Prefix { kind: PrefixKind::Drive, len: 2 }
    } else {
        Prefix { kind: PrefixKind::Plain, len: 0 }
    }
}

/// Whether `c` is an ASCII letter.
fn is_drive_letter(c: char) -> (yes: bool)
    ensures
        yes == is_letter(c),
{
    ('a' <= c && c <= 'z') || ('A' <= c && c <= 'Z')
}

/// Where a path's named components start.
fn find_body(path: &Vec<char>, prefix: Prefix) -> (start: usize)
    requires
        prefix.kind == prefix_kind(path@),
        prefix.len == prefix_len(path@),
        prefix.len <= path@.len(),
    ensures
        start == body_start(path@),
        prefix.len <= start <= path@.len(),
{
    let at: usize = prefix.len;
    if at >= path.len() {
        return at;
    }
    if is_separator(path[at], false) {
        return at + 1;
    }
    if prefix.kind != PrefixKind::Share && prefix.kind != PrefixKind::Verbatim && path[at] == '.'
        && (path.len() == at + 1 || is_separator(path[at + 1], false)) {
        at + 1
    } else {
        at
    }
}

/// Where the file name lies in the path, if the path ends in one.
pub fn find_name(path: &Vec<char>) -> (span: Option<(usize, usize)>)
    ensures
        match span {
            Some((start, end)) => name_span(path@) == Some((start as int, end as int)) && start
                < end <= path@.len(),
            None => name_span(path@) is None,
        },
{
    let prefix = parse_prefix(path);
    let verbatim = prefix.kind == PrefixKind::Verbatim;
    let low = find_body(path, prefix);
    let mut high: usize = path.len();
    while high > low
        invariant
            0 <= low <= path@.len(),
            high <= path@.len(),
            low == body_start(path@),
            verbatim == is_verbatim(path@),
            last_span(path@, low as int, path@.len() as int, verbatim) == last_span(
                path@,
                low as int,
                high as int,
                verbatim,
            ),
        decreases high,
    {
        let mut start: usize = high;
        while start > low && !is_separator(path[start - 1], verbatim)
            invariant
                low <= start <= high <= path@.len(),
                piece_start(path@, low as int, high as int, verbatim) == piece_start(
                    path@,
                    low as int,
                    start as int,
                    verbatim,
                ),
            decreases start,
        {
            start = start - 1;
        }
        let ghost piece = path@.subrange(start as int, high as int);
        let one_dot = high - start == 1 && path[start] == '.';
        let two_dots = high - start == 2 && path[start] == '.' && path[start + 1] == '.';
        proof {
            if one_dot {
                assert(piece =~= seq!['.']);
            }
            if two_dots {
                assert(piece =~= seq!['.', '.']);
            }
            assert(one_dot == (piece == seq!['.'])) by {
                if piece == seq!['.'] {
                    assert(piece[0] == '.');
                }
            }
            assert(two_dots == (piece == seq!['.', '.'])) by {
                if piece == seq!['.', '.'] {
                    assert(piece[0] == '.' && piece[1] == '.');
                }
            }
        }
        if two_dots || (one_dot && verbatim) {
            return None;
        }
        if high > start && !one_dot {
            return Some((start, high));
        }
        if start == low {
            return None;
        }
        high = start - 1;
    }
    None
}

/// The file name of a path, if the path ends in one.
pub fn path_file_name(path: &str) -> (name: Option<String>)
    ensures
        match name {
            Some(name) => file_name(path@) == Some(name@),
            None => file_name(path@) is None,
        },
{
    let chars = chars_of(path);
    match find_name(&chars) {
        Some((start, end)) => Some(text_between(&chars, start, end)),
        None => None,
    }
}

/// How much of a file name comes before the dot of its extension.
fn find_stem(name: &Vec<char>) -> (len: usize)
    ensures
        len == stem_len(name@),
        len <= name@.len(),
{
    proof {
        text::last_index_of_is_last(name@, '.');
    }
    match find_last(name, '.') {
        Some(dot) => if dot > 0 {
            dot
        } else {
            name.len()
        },
        None => name.len(),
    }
}

/// The extension of a path's file name, if it has one.
pub fn path_extension(path: &str) -> (ext: Option<String>)
    ensures
        match ext {
            Some(ext) => extension(path@) == Some(ext@),
            None => extension(path@) is None,
        },
{
    let name = match path_file_name(path) {
        Some(name) => chars_of(name.as_str()),
        None => {
            return None;
        },
    };
    let stem = find_stem(&name);
    if stem < name.len() {
        let ext = text_between(&name, stem + 1, name.len());
        assert(ext@ =~= name@.skip(stem + 1));
        Some(ext)
    } else {
        None
    }
}

/// A path with another extension, or with none where `ext` is empty.
pub fn path_with_extension(path: &str, ext: &str) -> (out: String)
    ensures
        out@ == with_extension(path@, ext@),
{
    let chars = chars_of(path);
    match find_name(&chars) {
        Some((start, end)) => {
            let name = chars_of(text_between(&chars, start, end).as_str());
            let stem = find_stem(&name);
            let mut out = text_between(&chars, 0, start + stem);
            let ghost stem_text = out@;
            if !ext.is_empty() {
                out.push('.');
                out.append(ext);
                assert(out@ =~= stem_text + seq!['.'] + ext@);
            }
            out
        },
        None => text_between(&chars, 0, chars.len()),
    }
}

/// One component of a path.
pub enum Component {
    /// What the path starts with, such as a drive.
    Prefix(String),
    /// The root.
    Root,
    /// A dot.
    Current,
    /// Two dots.
    Parent,
    /// The name of a file or directory.
    Name(String),
}

impl View for Component {
    type V = ComponentView;

    open spec fn view(&self) -> ComponentView {
        match self {
            Component::Prefix(text) => ComponentView::Prefix(text@),
            Component::Root => ComponentView::Root,
            Component::Current => ComponentView::Current,
            Component::Parent => ComponentView::Parent,
            Component::Name(name) => ComponentView::Name(name@),
        }
    }
}

/// What a list of components holds.
pub open spec fn component_views(list: Seq<Component>) -> Seq<ComponentView> {
    Seq::new(list.len(), |i: int| list[i]@)
}

/// Adds `next` to a list of components.
fn push_component(list: &mut Vec<Component>, next: Component)
    ensures
        component_views(final(list)@) == component_views(old(list)@).push(next@),
{
    list.push(next);
    assert(component_views(list@) =~= component_views(old(list)@).push(next@));
}

/// The components of a path.
pub fn split_components(path: &Vec<char>) -> (out: Vec<Component>)
    ensures
        component_views(out@) == components(path@),
{
    let prefix = parse_prefix(path);
    let verbatim = prefix.kind == PrefixKind::Verbatim;
    let body = find_body(path, prefix);
    let mut out: Vec<Component> = Vec::new();
    assert(component_views(out@) =~= Seq::empty());
    if prefix.kind != PrefixKind::Plain {
        push_component(&mut out, Component::Prefix(text_between(path, 0, prefix.len)));
    }
    let ghost start = component_views(out@);
    let root_sep = prefix.len < path.len() && is_separator(path[prefix.len], false);
    if root_sep || prefix.kind == PrefixKind::Share {
        push_component(&mut out, Component::Root);
    } else if prefix.kind == PrefixKind::Plain && body > prefix.len {
        push_component(&mut out, Component::Current);
    }
    let ghost head = component_views(out@);
    let mut from: usize = body;
    assert(components(path@) =~= head + components_from(path@, from as int, verbatim));
    while from < path.len()
        invariant
            0 <= from <= path@.len() + 1,
            components(path@) == component_views(out@) + components_from(
                path@,
                from as int,
                verbatim,
            ),
        decreases path@.len() + 1 - from,
    {
        let end = find_sep(path, from, verbatim);
        let ghost piece = path@.subrange(from as int, end as int);
        let ghost before = component_views(out@);
        let one_dot = end - from == 1 && path[from] == '.';
        let two_dots = end - from == 2 && path[from] == '.' && path[from + 1] == '.';
        proof {
            if one_dot {
                assert(piece =~= seq!['.']);
            }
            if two_dots {
                assert(piece =~= seq!['.', '.']);
            }
            assert(one_dot == (piece == seq!['.'])) by {
                if piece == seq!['.'] {
                    assert(piece[0] == '.');
                }
            }
            assert(two_dots == (piece == seq!['.', '.'])) by {
                if piece == seq!['.', '.'] {
                    assert(piece[0] == '.' && piece[1] == '.');
                }
            }
        }
        if one_dot {
            if verbatim {
                push_component(&mut out, Component::Current);
            }
        } else if two_dots {
            push_component(&mut out, Component::Parent);
        } else if end > from {
            push_component(&mut out, Component::Name(text_between(path, from, end)));
        }
        assert(component_views(out@) =~= before + component(piece, verbatim));
        if end == path.len() {
            assert(components_from(path@, end + 1, verbatim) =~= Seq::empty());
            assert(components(path@) =~= component_views(out@));
            return out;
        }
        assert(before + (component(piece, verbatim) + components_from(path@, end + 1, verbatim))
            =~= component_views(out@) + components_from(path@, end + 1, verbatim));
        from = end + 1;
    }
    assert(components(path@) =~= component_views(out@));
    out
}

/// Takes one step of a relative path.
fn take_step(list: &mut Vec<Component>, next: Component)
    ensures
        component_views(final(list)@) == step_into(component_views(old(list)@), next@),
{
    match next {
        Component::Root => {
            list.truncate(1);
            assert(component_views(list@) =~= component_views(old(list)@).take(
                if old(list)@.len() > 0 {
                    1
                } else {
                    0
                },
            ));
            push_component(list, Component::Root);
            assert(component_views(list@) =~= step_into(component_views(old(list)@), next@));
        },
        Component::Current => {},
        Component::Parent => {
            let up = if list.len() > 0 {
                match &list[list.len() - 1] {
                    Component::Name(_) => true,
                    _ => false,
                }
            } else {
                false
            };
            if up {
                let _ = list.pop();
                assert(component_views(list@) =~= component_views(old(list)@).drop_last());
            }
        },
        other => push_component(list, other),
    }
}

/// Appends how a component is written.
fn append_component(out: &mut String, component: &Component)
    ensures
        final(out)@ == old(out)@ + component_text(component@),
{
    match component {
        Component::Prefix(text) => out.append(text.as_str()),
        Component::Root => {
            out.push('\\');
            assert(out@ =~= old(out)@ + seq!['\\']);
        },
        Component::Current => {
            out.push('.');
            assert(out@ =~= old(out)@ + seq!['.']);
        },
        Component::Parent => {
            out.push('.');
            out.push('.');
            assert(out@ =~= old(out)@ + seq!['.', '.']);
        },
        Component::Name(name) => out.append(name.as_str()),
    }
}

/// Whether a component is the root.
fn is_root(component: &Component) -> (yes: bool)
    ensures
        yes == (component@ is Root),
{
    match component {
        Component::Root => true,
        _ => false,
    }
}

/// A list of components written out.
fn render_components(list: &Vec<Component>) -> (out: String)
    ensures
        out@ == render(component_views(list@)),
{
    let mut out = String::new();
    let mut i: usize = 0;
    let ghost all = component_views(list@);
    assert(all.take(0) =~= Seq::empty());
    while i < list.len()
        invariant
            0 <= i <= list@.len(),
            all == component_views(list@),
            out@ == render(all.take(i as int)),
        decreases list@.len() - i,
    {
        let ghost upto = all.take(i + 1);
        let ghost before = out@;
        assert(upto.drop_last() =~= all.take(i as int));
        assert(upto.last() == list@[i as int]@);
        if i > 0 {
            assert(upto[upto.len() - 2] == list@[i - 1]@);
        }
        if i > 0 && !is_root(&list[i]) && !is_root(&list[i - 1]) {
            out.push('\\');
            assert(out@ =~= before + seq!['\\']);
        }
        append_component(&mut out, &list[i]);
        i = i + 1;
        assert(out@ == render(upto));
    }
    assert(all.take(i as int) =~= all);
    out
}

/// The path that `name` leads to from `base`.
pub fn join_paths(base: &str, name: &str) -> (out: String)
    ensures
        out@ == join(base@, name@),
{
    let base_chars = chars_of(base);
    let name_chars = chars_of(name);
    let base_prefix = parse_prefix(&base_chars);
    let name_prefix = parse_prefix(&name_chars);
    if name_prefix.kind != PrefixKind::Plain {
        return name.to_owned();
    }
    if base_prefix.kind == PrefixKind::Verbatim && name_chars.len() > 0 {
        let mut list = split_components(&base_chars);
        let mut steps = split_components(&name_chars);
        let ghost start = component_views(list@);
        let ghost all = components(name@);
        let ghost mut taken: int = 0;
        assert(all.take(0) =~= Seq::empty());
        assert(all.skip(0) =~= all);
        while steps.len() > 0
            invariant
                0 <= taken <= all.len(),
                component_views(steps@) == all.skip(taken),
                component_views(list@) == step_through(start, all.take(taken)),
            decreases steps@.len(),
        {
            let ghost rest = component_views(steps@);
            let next = steps.remove(0);
            take_step(&mut list, next);
            proof {
                assert(next@ == rest[0]);
                assert(component_views(steps@) =~= rest.skip(1));
                assert(rest.skip(1) =~= all.skip(taken + 1));
                assert(all.take(taken + 1).drop_last() =~= all.take(taken));
                assert(all.take(taken + 1).last() == next@);
                taken = taken + 1;
            }
        }
        assert(all.take(taken) =~= all) by {
            assert(all.skip(taken).len() == 0);
        }
        return render_components(&list);
    }
    let rooted = name_chars.len() > 0 && is_separator(name_chars[0], false);
    if rooted {
        let mut out = text_between(&base_chars, 0, base_prefix.len);
        out.append(name);
        return out;
    }
    let n: usize = base_chars.len();
    let mut out = text_between(&base_chars, 0, n);
    assert(out@ =~= base@);
    if n > 0 && !is_separator(base_chars[n - 1], false) && !(base_prefix.kind == PrefixKind::Drive
        && n == 2) {
        out.push('\\');
        assert(out@ =~= base@ + seq!['\\']);
    }
    out.append(name);
    out
}

} // verus!
