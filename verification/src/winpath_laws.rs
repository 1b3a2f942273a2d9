//! What holds of file names, extensions and components of Windows paths.

use crate::text;
use crate::winpath;
use vstd::prelude::*;

verus! {

/// The next separator is no earlier than where the search starts, and there is
/// none between.
proof fn next_sep_is_next(path: Seq<char>, from: int, verbatim: bool)
    requires
        0 <= from <= path.len(),
    ensures
        from <= winpath::next_sep(path, from, verbatim) <= path.len(),
        winpath::next_sep(path, from, verbatim) < path.len() ==> winpath::separates(
            path[winpath::next_sep(path, from, verbatim)],
            verbatim,
        ),
        forall|i: int|
            from <= i < winpath::next_sep(path, from, verbatim) ==> !winpath::separates(
                #[trigger] path[i],
                verbatim,
            ),
    decreases path.len() - from,
{
    if from < path.len() && !winpath::separates(path[from], verbatim) {
        next_sep_is_next(path, from + 1, verbatim);
    }
}

/// A separator with none before it is the next one.
proof fn next_sep_found(path: Seq<char>, from: int, verbatim: bool, end: int)
    requires
        0 <= from <= end <= path.len(),
        end < path.len() ==> winpath::separates(path[end], verbatim),
        forall|i: int| from <= i < end ==> !winpath::separates(#[trigger] path[i], verbatim),
    ensures
        winpath::next_sep(path, from, verbatim) == end,
    decreases end - from,
{
    if from < end {
        assert(!winpath::separates(path[from], verbatim));
        next_sep_found(path, from + 1, verbatim, end);
    }
}

/// A path's prefix and what starts its body lie in the path.
pub proof fn body_starts_in_the_path(path: Seq<char>)
    ensures
        0 <= winpath::prefix_len(path) <= winpath::body_start(path) <= path.len(),
{
    if winpath::has_verbatim_mark(path) {
        next_sep_is_next(path, 4, true);
        if winpath::has_verbatim_share_mark(path) {
            two_components_end_in_the_path(path, 8, true);
        }
    } else if winpath::has_device_mark(path) {
        next_sep_is_next(path, 4, false);
    } else if winpath::has_share(path) {
        two_components_end_in_the_path(path, 2, false);
    }
}

/// Two components end where one of them does.
proof fn two_components_end_in_the_path(path: Seq<char>, from: int, verbatim: bool)
    requires
        0 <= from <= path.len(),
    ensures
        from <= winpath::two_components_end(path, from, verbatim) <= path.len(),
        winpath::two_components_end(path, from, verbatim) < path.len() ==> winpath::separates(
            path[winpath::two_components_end(path, from, verbatim)],
            verbatim,
        ),
{
    next_sep_is_next(path, from, verbatim);
    let first = winpath::next_sep(path, from, verbatim);
    if first < path.len() {
        next_sep_is_next(path, first + 1, verbatim);
    }
}

/// The components up to a separator and those after it are all the components.
proof fn separator_parts_components(path: Seq<char>, from: int, at: int, verbatim: bool)
    requires
        0 <= from <= at < path.len(),
        winpath::separates(path[at], verbatim),
    ensures
        winpath::components_from(path, from, verbatim) == winpath::components_from(
            path.take(at),
            from,
            verbatim,
        ) + winpath::components_from(path, at + 1, verbatim),
    decreases at - from,
{
    let front = path.take(at);
    let rest = winpath::components_from(path, at + 1, verbatim);
    next_sep_is_next(path, from, verbatim);
    let end = winpath::next_sep(path, from, verbatim);
    assert(end <= at);
    assert(front.subrange(from, end) =~= path.subrange(from, end));
    let piece = winpath::component(path.subrange(from, end), verbatim);
    if from == at {
        assert(path.subrange(from, end).len() == 0);
        assert(piece + rest =~= rest);
        assert(winpath::components_from(front, from, verbatim) + rest =~= rest);
    } else {
        assert forall|i: int| from <= i < end implies !winpath::separates(
            #[trigger] front[i],
            verbatim,
        ) by {
            assert(front[i] == path[i]);
        }
        next_sep_found(front, from, verbatim, end);
        if end == at {
            assert(winpath::components_from(front, end + 1, verbatim) =~= Seq::empty());
            assert(winpath::components_from(front, from, verbatim) =~= piece);
        } else {
            separator_parts_components(path, end + 1, at, verbatim);
            assert(piece + (winpath::components_from(front, end + 1, verbatim) + rest) =~= (piece
                + winpath::components_from(front, end + 1, verbatim)) + rest);
        }
    }
}

/// A piece starts after a separator or where the search ends, and has none in it.
proof fn piece_starts_after_separator(path: Seq<char>, low: int, high: int, verbatim: bool)
    requires
        0 <= low <= high <= path.len(),
    ensures
        ({
            let start = winpath::piece_start(path, low, high, verbatim);
            &&& low <= start <= high
            &&& start == low || winpath::separates(path[start - 1], verbatim)
            &&& forall|i: int|
                start <= i < high ==> !winpath::separates(#[trigger] path[i], verbatim)
        }),
    decreases high - low,
{
    if low < high && !winpath::separates(path[high - 1], verbatim) {
        piece_starts_after_separator(path, low, high - 1, verbatim);
    }
}

/// A place after a separator with none between it and the end is where the last
/// piece starts.
proof fn piece_start_found(path: Seq<char>, low: int, high: int, verbatim: bool, start: int)
    requires
        0 <= low <= start <= high <= path.len(),
        start == low || winpath::separates(path[start - 1], verbatim),
        forall|i: int| start <= i < high ==> !winpath::separates(#[trigger] path[i], verbatim),
    ensures
        winpath::piece_start(path, low, high, verbatim) == start,
    decreases high - low,
{
    if start < high {
        assert(!winpath::separates(path[high - 1], verbatim));
        piece_start_found(path, low, high - 1, verbatim, start);
    }
}

/// The last piece that counts is the last component.
proof fn last_span_is_last_component(path: Seq<char>, low: int, high: int, verbatim: bool)
    requires
        0 <= low <= high <= path.len(),
    ensures
        ({
            let list = winpath::components_from(path.take(high), low, verbatim);
            match winpath::last_span(path, low, high, verbatim) {
                Some((start, end)) => {
                    let piece = winpath::component(path.subrange(start, end), verbatim);
                    &&& low <= start < end <= high
                    &&& start == low || winpath::separates(path[start - 1], verbatim)
                    &&& forall|i: int|
                        start <= i < end ==> !winpath::separates(#[trigger] path[i], verbatim)
                    &&& piece.len() == 1
                    &&& list.len() > 0
                    &&& list.last() == piece[0]
                },
                None => list.len() == 0,
            }
        }),
    decreases high - low,
{
    let front = path.take(high);
    if low < high {
        piece_starts_after_separator(path, low, high, verbatim);
        let start = winpath::piece_start(path, low, high, verbatim);
        let piece = winpath::component(path.subrange(start, high), verbatim);
        assert forall|i: int| start <= i < high implies !winpath::separates(
            #[trigger] front[i],
            verbatim,
        ) by {
            assert(front[i] == path[i]);
        }
        next_sep_found(front, start, verbatim, high);
        assert(front.subrange(start, high) =~= path.subrange(start, high));
        assert(winpath::components_from(front, high + 1, verbatim) =~= Seq::empty());
        assert(winpath::components_from(front, start, verbatim) =~= piece) by {
            if start == high {
                assert(path.subrange(start, high).len() == 0);
            }
        }
        if start > low {
            assert(front[start - 1] == path[start - 1]);
            separator_parts_components(front, low, start - 1, verbatim);
            assert(front.take(start - 1) =~= path.take(start - 1));
            let before = winpath::components_from(path.take(start - 1), low, verbatim);
            assert(winpath::components_from(front, low, verbatim) == before + piece);
            last_span_is_last_component(path, low, start - 1, verbatim);
            if piece.len() == 0 {
                assert(before + piece =~= before);
            }
        }
    }
}

/// The file name of a path is its last component, where that is a name; a path
/// whose last component is none has no file name.
#[verifier::spinoff_prover]
#[verifier::rlimit(60)]
pub proof fn file_name_is_last_component(path: Seq<char>)
    ensures
        winpath::file_name(path) == if winpath::components(path).len() > 0 {
            match winpath::components(path).last() {
                winpath::ComponentView::Name(name) => Some(name),
                _ => None,
            }
        } else {
            None
        },
{
    let low = winpath::body_start(path);
    let n = path.len() as int;
    let verbatim = winpath::is_verbatim(path);
    body_starts_in_the_path(path);
    last_span_is_last_component(path, low, n, verbatim);
    assert(path.take(n) =~= path);
    let list = winpath::components_from(path, low, verbatim);
    if list.len() > 0 {
        assert(winpath::components(path).last() == list.last());
        let (start, end) = winpath::last_span(path, low, n, verbatim)->Some_0;
        let piece = path.subrange(start, end);
        assert(piece.len() == end - start);
        if piece == seq!['.'] {
            assert(verbatim);
        }
        if piece == seq!['.', '.'] {
            assert(piece != seq!['.']) by {
                assert(seq!['.', '.'].len() != seq!['.'].len());
            }
        }
    } else {
        assert(winpath::components(path).len() > 0 ==> !(winpath::components(path).last() is Name));
    }
}

/// Where a file name lies: in the body, after a separator or at its start, with
/// no separator in it.
pub proof fn file_name_has_no_separator(path: Seq<char>)
    requires
        winpath::name_span(path) is Some,
    ensures
        ({
            let (start, end) = winpath::name_span(path)->Some_0;
            &&& winpath::body_start(path) <= start < end <= path.len()
            &&& start == winpath::body_start(path) || winpath::separates(
                path[start - 1],
                winpath::is_verbatim(path),
            )
            &&& forall|i: int|
                start <= i < end ==> !winpath::separates(
                    #[trigger] path[i],
                    winpath::is_verbatim(path),
                )
        }),
{
    body_starts_in_the_path(path);
    last_span_is_last_component(
        path,
        winpath::body_start(path),
        path.len() as int,
        winpath::is_verbatim(path),
    );
}

/// `other` is `path` up to `keep`, a place behind the start of the file name, and
/// has a dot there and no separator from there on.
spec fn same_front(path: Seq<char>, other: Seq<char>, keep: int) -> bool {
    &&& winpath::name_span(path) is Some
    &&& winpath::name_span(path)->Some_0.0 < keep <= winpath::name_span(path)->Some_0.1
    &&& other.len() >= keep + 2
    &&& forall|i: int| 0 <= i < keep ==> #[trigger] path[i] == other[i]
    &&& forall|i: int|
        keep <= i < other.len() ==> !winpath::separates(
            #[trigger] other[i],
            winpath::is_verbatim(path),
        )
    &&& other[keep] == '.'
}

/// The next separator before the file name is the same in both.
proof fn same_next_sep(path: Seq<char>, other: Seq<char>, keep: int, from: int, verbatim: bool)
    requires
        same_front(path, other, keep),
        verbatim == winpath::is_verbatim(path),
        0 <= from <= winpath::name_span(path)->Some_0.0,
    ensures
        ({
            let start = winpath::name_span(path)->Some_0.0;
            let end = winpath::next_sep(path, from, verbatim);
            &&& end < start ==> winpath::next_sep(other, from, verbatim) == end
            &&& end >= start ==> end > start && winpath::next_sep(other, from, verbatim) > start
        }),
{
    let start = winpath::name_span(path)->Some_0.0;
    file_name_has_no_separator(path);
    next_sep_is_next(path, from, verbatim);
    next_sep_is_next(other, from, verbatim);
    let end = winpath::next_sep(path, from, verbatim);
    let other_end = winpath::next_sep(other, from, verbatim);
    assert(!winpath::separates(path[start], verbatim));
    assert(path[start] == other[start]);
    if end < start {
        assert forall|i: int| from <= i < end implies !winpath::separates(
            #[trigger] other[i],
            verbatim,
        ) by {
            assert(path[i] == other[i]);
        }
        assert(path[end] == other[end]);
        next_sep_found(other, from, verbatim, end);
    } else {
        if other_end <= start {
            assert(path[other_end] == other[other_end]);
            assert(winpath::separates(other[other_end], verbatim));
            assert(other_end < end);
        }
    }
}

/// Two components that end before the file name end there in both.
proof fn same_two_components(path: Seq<char>, other: Seq<char>, keep: int, from: int, verbatim: bool)
    requires
        same_front(path, other, keep),
        verbatim == winpath::is_verbatim(path),
        0 <= from <= winpath::name_span(path)->Some_0.0,
        winpath::two_components_end(path, from, verbatim) <= winpath::name_span(path)->Some_0.0,
    ensures
        winpath::two_components_end(other, from, verbatim) == winpath::two_components_end(
            path,
            from,
            verbatim,
        ),
        winpath::next_sep(other, from, verbatim) == winpath::next_sep(path, from, verbatim),
{
    let start = winpath::name_span(path)->Some_0.0;
    file_name_has_no_separator(path);
    next_sep_is_next(path, from, verbatim);
    same_next_sep(path, other, keep, from, verbatim);
    let first = winpath::next_sep(path, from, verbatim);
    if first < path.len() {
        next_sep_is_next(path, first + 1, verbatim);
    }
    assert(first < start);
    same_next_sep(path, other, keep, first + 1, verbatim);
}

/// Both paths have the same prefix and the same start of the body.
proof fn same_body(path: Seq<char>, other: Seq<char>, keep: int)
    requires
        same_front(path, other, keep),
    ensures
        winpath::prefix_kind(other) == winpath::prefix_kind(path),
        winpath::body_start(other) == winpath::body_start(path),
{
    let (start, end) = winpath::name_span(path)->Some_0;
    let verbatim = winpath::is_verbatim(path);
    file_name_has_no_separator(path);
    body_starts_in_the_path(path);
    assert(forall|i: int|
        0 <= i < other.len() && winpath::separates(#[trigger] other[i], verbatim) ==> i < keep);
    assert(forall|i: int|
        0 <= i < keep ==> winpath::is_sep(#[trigger] path[i]) == winpath::is_sep(other[i]));
    assert(winpath::has_verbatim_mark(other) == winpath::has_verbatim_mark(path)) by {
        if winpath::has_verbatim_mark(other) {
            assert(winpath::is_sep(other[3]));
        }
        if winpath::has_verbatim_mark(path) {
            next_sep_is_next(path, 4, true);
            if winpath::has_verbatim_share_mark(path) {
                two_components_end_in_the_path(path, 8, true);
            }
            assert(start >= 4);
        }
    }
    if verbatim {
        same_literal_prefix(path, other, keep);
    } else {
        same_ordinary_prefix(path, other, keep);
    }
    let at = winpath::prefix_len(path);
    assert(path[at] == other[at]);
    assert(winpath::has_root_sep(other) == winpath::has_root_sep(path));
    assert(winpath::starts_with_dot(other) == winpath::starts_with_dot(path)) by {
        if winpath::starts_with_dot(path) {
            assert(start >= at + 1);
            assert(path.len() > at + 1);
            assert(winpath::is_sep(path[at + 1]));
            assert(start != at + 1);
        }
        if winpath::starts_with_dot(other) {
            assert(winpath::is_sep(other[at + 1]));
        }
    }
}

/// Paths that are read literally have the same prefix.
proof fn same_literal_prefix(path: Seq<char>, other: Seq<char>, keep: int)
    requires
        same_front(path, other, keep),
        winpath::has_verbatim_mark(path),
        winpath::has_verbatim_mark(other),
    ensures
        winpath::prefix_len(other) == winpath::prefix_len(path),
{
    let (start, end) = winpath::name_span(path)->Some_0;
    file_name_has_no_separator(path);
    body_starts_in_the_path(path);
    let at = winpath::prefix_len(path);
    assert(at <= start);
    next_sep_is_next(path, 4, true);
    if winpath::has_verbatim_share_mark(path) {
        two_components_end_in_the_path(path, 8, true);
        assert(start >= 8);
        assert(path[4] == other[4] && path[5] == other[5] && path[6] == other[6] && path[7]
            == other[7]);
        assert(winpath::has_verbatim_share_mark(other));
        same_two_components(path, other, keep, 8, true);
    } else {
        assert(!winpath::has_verbatim_share_mark(other)) by {
            if winpath::has_verbatim_share_mark(other) {
                assert(winpath::is_sep(other[7]));
                assert(keep > 7);
                assert(path[4] == other[4] && path[5] == other[5] && path[6] == other[6] && path[7]
                    == other[7]);
            }
        }
        if winpath::has_verbatim_drive(path) {
            assert(winpath::is_sep(path[6]));
            assert(start >= 7) by {
                assert(winpath::has_root_sep(path));
            }
            assert(path[4] == other[4] && path[5] == other[5] && path[6] == other[6]);
            assert(winpath::has_verbatim_drive(other));
        } else {
            assert(start >= 4);
            assert(!winpath::has_verbatim_drive(other)) by {
                if winpath::has_verbatim_drive(other) {
                    assert(other.len() > 6);
                    assert(winpath::is_sep(other[6]));
                    assert(keep > 6);
                    assert(path[4] == other[4] && path[5] == other[5] && path[6] == other[6]);
                }
            }
            same_next_sep(path, other, keep, 4, true);
        }
    }
}

/// Paths that are not read literally have the same prefix.
proof fn same_ordinary_prefix(path: Seq<char>, other: Seq<char>, keep: int)
    requires
        same_front(path, other, keep),
        !winpath::has_verbatim_mark(path),
        !winpath::has_verbatim_mark(other),
    ensures
        winpath::prefix_kind(other) == winpath::prefix_kind(path),
        winpath::prefix_len(other) == winpath::prefix_len(path),
{
    let (start, end) = winpath::name_span(path)->Some_0;
    file_name_has_no_separator(path);
    body_starts_in_the_path(path);
    assert(winpath::prefix_len(path) <= start);
    if winpath::has_device_mark(path) {
        next_sep_is_next(path, 4, false);
        assert(path[0] == other[0] && path[1] == other[1] && path[2] == other[2] && path[3]
            == other[3]);
        assert(winpath::has_device_mark(other));
        same_next_sep(path, other, keep, 4, false);
    } else {
        assert(!winpath::has_device_mark(other)) by {
            if winpath::has_device_mark(other) {
                assert(winpath::is_sep(other[3]));
                assert(path[0] == other[0] && path[1] == other[1] && path[2] == other[2] && path[3]
                    == other[3]);
            }
        }
        if winpath::has_share(path) {
            two_components_end_in_the_path(path, 2, false);
            assert(path[0] == other[0] && path[1] == other[1]);
            same_two_components(path, other, keep, 2, false);
            assert(winpath::has_share(other));
        } else {
            no_share_comes_up(path, other, keep);
            assert(winpath::has_drive(other) == winpath::has_drive(path)) by {
                if winpath::has_drive(path) {
                    assert(start >= 2);
                    assert(path[0] == other[0] && path[1] == other[1]);
                }
                if winpath::has_drive(other) {
                    if keep > 1 {
                        assert(path[0] == other[0] && path[1] == other[1]);
                    } else {
                        assert(other[1] == '.');
                    }
                }
            }
        }
    }
}

/// A path without the names of a server and a share gets none.
proof fn no_share_comes_up(path: Seq<char>, other: Seq<char>, keep: int)
    requires
        same_front(path, other, keep),
        !winpath::has_verbatim_mark(path),
        !winpath::has_device_mark(path),
        !winpath::has_share(path),
    ensures
        !winpath::has_share(other),
{
    let (start, end) = winpath::name_span(path)->Some_0;
    file_name_has_no_separator(path);
    body_starts_in_the_path(path);
    if winpath::has_share(other) {
        assert(winpath::is_sep(other[1]));
        assert(keep > 1);
        assert(path[0] == other[0] && path[1] == other[1]);
        assert(start >= 2) by {
            assert(!winpath::is_sep(path[start]));
            assert(winpath::is_sep(path[0]) && winpath::is_sep(path[1]));
        }
        next_sep_is_next(other, 2, false);
        next_sep_is_next(path, 2, false);
        same_next_sep(path, other, keep, 2, false);
        let first = winpath::next_sep(other, 2, false);
        assert(first < other.len());
        assert(winpath::is_sep(other[first]));
        assert(first < keep);
        assert(winpath::is_sep(path[first]));
        assert(first < start);
        assert(winpath::next_sep(path, 2, false) == first);
        next_sep_is_next(other, first + 1, false);
        next_sep_is_next(path, first + 1, false);
        same_next_sep(path, other, keep, first + 1, false);
    }
}

/// A path that gets another extension keeps its folder and the stem of its file
/// name, and the extension can be read off it.
#[verifier::spinoff_prover]
#[verifier::rlimit(60)]
pub proof fn new_extension_is_read_back(path: Seq<char>, ext: Seq<char>)
    requires
        winpath::name_span(path) is Some,
        ext.len() > 0,
        forall|i: int|
            0 <= i < ext.len() ==> !winpath::separates(#[trigger] ext[i], winpath::is_verbatim(path))
                && ext[i] != '.',
    ensures
        ({
            let (start, end) = winpath::name_span(path)->Some_0;
            let name = path.subrange(start, end);
            let out = winpath::with_extension(path, ext);
            &&& out.take(start) == path.take(start)
            &&& winpath::file_name(out) == Some(
                name.take(winpath::stem_len(name)) + seq!['.'] + ext,
            )
            &&& winpath::extension(out) == Some(ext)
        }),
{
    let (start, end) = winpath::name_span(path)->Some_0;
    let name = path.subrange(start, end);
    let stem = winpath::stem_len(name);
    let keep = start + stem;
    let out = winpath::with_extension(path, ext);
    let verbatim = winpath::is_verbatim(path);
    file_name_has_no_separator(path);
    body_starts_in_the_path(path);
    text::last_index_of_is_last(name, '.');
    assert(0 < stem <= name.len());
    assert(out == path.subrange(0, keep) + seq!['.'] + ext);
    assert forall|i: int| keep <= i < out.len() implies !winpath::separates(
        #[trigger] out[i],
        verbatim,
    ) by {
        if i > keep {
            assert(out[i] == ext[i - keep - 1]);
        }
    }
    assert(same_front(path, out, keep));
    same_body(path, out, keep);
    let low = winpath::body_start(path);
    let n = out.len() as int;
    assert forall|i: int| start <= i < n implies !winpath::separates(
        #[trigger] out[i],
        verbatim,
    ) by {
        if i < keep {
            assert(out[i] == path[i]);
        }
    }
    if start > low {
        assert(out[start - 1] == path[start - 1]);
    }
    piece_start_found(out, low, n, verbatim, start);
    let new_name = out.subrange(start, n);
    assert(new_name.len() >= 3);
    assert(winpath::name_span(out) == Some((start, n)));
    assert(new_name =~= name.take(stem) + seq!['.'] + ext);
    text::last_index_of_is_last(new_name, '.');
    assert(new_name[stem] == '.');
    assert forall|i: int| stem < i < new_name.len() implies new_name[i] != '.' by {
        assert(new_name[i] == ext[i - stem - 1]);
    }
    assert(text::last_index_of(new_name, '.') == stem);
    assert(new_name.skip(stem + 1) =~= ext);
    assert(out.take(start) =~= path.take(start));
}

/// An extension has no dot and, unless the path is read literally, no separator.
pub proof fn extension_has_no_dot(path: Seq<char>)
    requires
        winpath::extension(path) is Some,
    ensures
        forall|i: int|
            0 <= i < winpath::extension(path)->Some_0.len() ==> {
                let c = #[trigger] winpath::extension(path)->Some_0[i];
                c != '.' && !winpath::separates(c, winpath::is_verbatim(path))
            },
{
    let (start, end) = winpath::name_span(path)->Some_0;
    let name = path.subrange(start, end);
    let ext = winpath::extension(path)->Some_0;
    file_name_has_no_separator(path);
    text::last_index_of_is_last(name, '.');
    let stem = winpath::stem_len(name);
    assert forall|i: int| 0 <= i < ext.len() implies {
        let c = #[trigger] ext[i];
        c != '.' && !winpath::separates(c, winpath::is_verbatim(path))
    } by {
        assert(ext[i] == name[stem + 1 + i]);
        assert(name[stem + 1 + i] == path[start + stem + 1 + i]);
    }
}

/// A path that is the text of its own components: written with `\` only, and without
/// doubled separators and single dots.
pub open spec fn is_plainly_written(path: Seq<char>) -> bool {
    winpath::render(winpath::components(path)) == path
}

/// One component and nothing else: no separator, no colon, and not dots alone.
pub open spec fn is_simple_name(name: Seq<char>) -> bool {
    &&& name.len() > 0
    &&& forall|i: int| 0 <= i < name.len() ==> !winpath::is_sep(#[trigger] name[i]) && name[i] != ':'
    &&& name != seq!['.']
    &&& name != seq!['.', '.']
}

/// All of these components are names.
pub open spec fn are_names(list: Seq<winpath::ComponentView>) -> bool {
    forall|i: int| 0 <= i < list.len() ==> #[trigger] list[i] is Name
}

/// A component that stands alone is written as it is.
pub proof fn only_component(component: winpath::ComponentView)
    ensures
        winpath::render(seq![component]) == winpath::component_text(component),
{
    let list = seq![component];
    assert(list.drop_last() =~= Seq::empty());
    assert(winpath::render(list.drop_last()) =~= Seq::empty());
    assert(winpath::render(list) =~= winpath::component_text(component));
}

/// A simple name is its own only component.
pub proof fn simple_name_is_one_component(name: Seq<char>)
    requires
        is_simple_name(name),
    ensures
        winpath::prefix_kind(name) is Plain,
        winpath::components(name) == seq![winpath::ComponentView::Name(name)],
        is_plainly_written(name),
{
    let n = name.len() as int;
    assert(!winpath::is_sep(name[0]));
    if n >= 2 {
        assert(name[1] != ':');
        assert(!winpath::is_sep(name[1]));
    }
    assert(winpath::prefix_kind(name) is Plain);
    assert(!winpath::starts_with_dot(name)) by {
        if winpath::starts_with_dot(name) {
            if n == 1 {
                assert(name =~= seq!['.']);
            }
        }
    }
    next_sep_found(name, 0, false, n);
    assert(name.subrange(0, n) =~= name);
    assert(winpath::components_from(name, n + 1, false) =~= Seq::empty());
    assert(winpath::components(name) =~= seq![winpath::ComponentView::Name(name)]);
    only_component(winpath::ComponentView::Name(name));
}

/// Steps that are names only add to the list.
proof fn names_are_added(list: Seq<winpath::ComponentView>, names: Seq<winpath::ComponentView>)
    requires
        are_names(names),
    ensures
        winpath::step_through(list, names) == list + names,
    decreases names.len(),
{
    if names.len() > 0 {
        let front = names.drop_last();
        assert(names[names.len() - 1] is Name);
        assert(are_names(front)) by {
            assert forall|i: int| 0 <= i < front.len() implies #[trigger] front[i] is Name by {
                assert(front[i] == names[i]);
            }
        }
        names_are_added(list, front);
        assert((list + front).push(names.last()) =~= list + names);
    } else {
        assert(list + names =~= list);
    }
}

/// Names after a list that does not end in a root are written behind it, after a
/// separator.
proof fn names_are_written_behind(
    list: Seq<winpath::ComponentView>,
    names: Seq<winpath::ComponentView>,
)
    requires
        list.len() > 0,
        !(list.last() is Root),
        names.len() > 0,
        are_names(names),
    ensures
        winpath::render(list + names) == winpath::render(list) + seq!['\\'] + winpath::render(names),
    decreases names.len(),
{
    let all = list + names;
    let front = names.drop_last();
    let last = names.last();
    assert(names[names.len() - 1] is Name);
    assert(all.drop_last() =~= list + front);
    if front.len() == 0 {
        assert(all.drop_last() =~= list);
        assert(names =~= seq![last]);
        only_component(last);
        assert(all[all.len() - 2] == list.last());
    } else {
        assert(are_names(front)) by {
            assert forall|i: int| 0 <= i < front.len() implies #[trigger] front[i] is Name by {
                assert(front[i] == names[i]);
            }
        }
        names_are_written_behind(list, front);
        assert(all[all.len() - 2] == names[names.len() - 2]);
        assert(names[names.len() - 2] is Name);
        assert(winpath::render(all) =~= winpath::render(list) + seq!['\\'] + winpath::render(
            names,
        ));
    }
}

/// A path that is plainly written and does not end in a separator has components,
/// and a root is not the last of them.
proof fn plain_path_does_not_end_in_root(path: Seq<char>)
    requires
        path.len() > 0,
        is_plainly_written(path),
        !winpath::is_sep(path.last()),
    ensures
        winpath::components(path).len() > 0,
        !(winpath::components(path).last() is Root),
{
    let list = winpath::components(path);
    assert(list.len() > 0) by {
        if list.len() == 0 {
            assert(winpath::render(list).len() == 0);
        }
    }
    if list.last() is Root {
        assert(winpath::render(list).last() == '\\');
    }
}

/// A plainly written name joined to a plainly written folder that is read literally
/// stands behind it, after a separator.
pub proof fn literal_join_is_plain(dir: Seq<char>, name: Seq<char>)
    requires
        winpath::is_verbatim(dir),
        is_plainly_written(dir),
        !winpath::is_sep(dir.last()),
        winpath::prefix_kind(name) is Plain,
        name.len() > 0,
        is_plainly_written(name),
        are_names(winpath::components(name)),
    ensures
        winpath::join(dir, name) == dir + seq!['\\'] + name,
{
    let names = winpath::components(name);
    plain_path_does_not_end_in_root(dir);
    assert(names.len() > 0) by {
        if names.len() == 0 {
            assert(winpath::render(names).len() == 0);
        }
    }
    names_are_added(winpath::components(dir), names);
    names_are_written_behind(winpath::components(dir), names);
}

/// A folder that is read literally stays plainly written with a simple name behind
/// it.
#[verifier::spinoff_prover]
#[verifier::rlimit(60)]
pub proof fn literal_folder_stays_plain(dir: Seq<char>, name: Seq<char>)
    requires
        winpath::is_verbatim(dir),
        is_plainly_written(dir),
        !winpath::is_sep(dir.last()),
        is_simple_name(name),
    ensures
        winpath::is_verbatim(dir + seq!['\\'] + name),
        is_plainly_written(dir + seq!['\\'] + name),
        winpath::join(dir, name) == dir + seq!['\\'] + name,
{
    let path = dir + seq!['\\'] + name;
    let n = dir.len() as int;
    let at = winpath::prefix_len(dir);
    simple_name_is_one_component(name);
    literal_join_is_plain(dir, name);
    body_starts_in_the_path(dir);
    plain_path_does_not_end_in_root(dir);
    literal_prefix_with_name(dir, name);
    assert(path.take(n) =~= dir);
    assert forall|i: int| n + 1 <= i < path.len() implies !winpath::separates(
        #[trigger] path[i],
        true,
    ) by {
        assert(path[i] == name[i - n - 1]);
    }
    next_sep_found(path, n + 1, true, path.len() as int);
    assert(path.subrange(n + 1, path.len() as int) =~= name);
    assert(winpath::components_from(path, path.len() as int + 1, true) =~= Seq::empty());
    let tail = seq![winpath::ComponentView::Name(name)];
    assert(winpath::components_from(path, n + 1, true) =~= tail);
    let list = winpath::components(dir);
    let all = winpath::components(path);
    if winpath::prefix_len(path) == path.len() {
        assert(path.subrange(0, path.len() as int) =~= path);
        assert(all =~= seq![winpath::ComponentView::Prefix(path)]);
        only_component(winpath::ComponentView::Prefix(path));
    } else if at == n {
        assert(dir.subrange(0, n) =~= dir);
        assert(path.subrange(0, n) =~= dir);
        let root = seq![winpath::ComponentView::Prefix(dir), winpath::ComponentView::Root];
        assert(all =~= root + tail);
        assert(all.drop_last() =~= root);
        assert(root.drop_last() =~= seq![winpath::ComponentView::Prefix(dir)]);
        only_component(winpath::ComponentView::Prefix(dir));
        assert(winpath::render(root) =~= dir + seq!['\\']);
        assert(all[all.len() - 2] is Root);
        assert(winpath::render(all) =~= path);
    } else {
        assert(path[at] == dir[at]);
        assert(path.subrange(0, at) =~= dir.subrange(0, at));
        separator_parts_components(path, at + 1, n, true);
        assert(all =~= list + tail);
        only_component(winpath::ComponentView::Name(name));
        assert(are_names(tail));
        names_are_written_behind(list, tail);
    }
}

/// The prefix of a literal folder with a simple name behind it: that of the folder,
/// or all of it where the folder is nothing but a prefix.
#[verifier::spinoff_prover]
#[verifier::rlimit(60)]
proof fn literal_prefix_with_name(dir: Seq<char>, name: Seq<char>)
    requires
        winpath::is_verbatim(dir),
        !winpath::is_sep(dir.last()),
        is_simple_name(name),
    ensures
        ({
            let path = dir + seq!['\\'] + name;
            let at = winpath::prefix_len(dir);
            &&& winpath::is_verbatim(path)
            &&& at < dir.len() ==> {
                &&& winpath::prefix_len(path) == at
                &&& winpath::is_sep(dir[at])
                &&& at + 1 < dir.len()
            }
            &&& at == dir.len() ==> winpath::prefix_len(path) == at || winpath::prefix_len(path)
                == path.len()
            &&& at <= dir.len()
        }),
{
    let path = dir + seq!['\\'] + name;
    let n = dir.len() as int;
    let at = winpath::prefix_len(dir);
    body_starts_in_the_path(dir);
    assert(n > 4) by {
        assert(dir[n - 1] == dir.last());
    }
    assert forall|i: int| 0 <= i < n implies path[i] == dir[i] by {}
    assert(path[n] == '\\');
    assert forall|i: int| n < i < path.len() implies !winpath::is_sep(#[trigger] path[i]) && path[i]
        != ':' by {
        assert(path[i] == name[i - n - 1]);
    }
    assert(winpath::has_verbatim_mark(path));
    literal_next_sep_with_name(dir, name, 4);
    if winpath::has_verbatim_share_mark(dir) {
        assert(winpath::has_verbatim_share_mark(path));
        literal_next_sep_with_name(dir, name, 8);
        let first = winpath::next_sep(dir, 8, true);
        next_sep_is_next(dir, 8, true);
        if first < n {
            assert(first + 1 < n);
            next_sep_is_next(dir, first + 1, true);
            literal_next_sep_with_name(dir, name, first + 1);
        } else {
            next_sep_found(path, n + 1, true, path.len() as int);
        }
    } else if winpath::has_verbatim_share_mark(path) {
        assert(n == 7);
        next_sep_is_next(dir, 4, true);
        next_sep_found(path, 8, true, path.len() as int);
        assert(!winpath::has_verbatim_drive(dir));
        assert(dir[4] == 'U' && dir[5] == 'N' && dir[6] == 'C');
        assert(at == 7);
    } else if winpath::has_verbatim_drive(dir) {
        assert(winpath::has_verbatim_drive(path));
    } else {
        next_sep_is_next(dir, 4, true);
        assert(!winpath::has_verbatim_drive(path));
    }
}

/// The next separator in a literal folder stays the next one with a simple name
/// behind it; where there is none, it is the one before the name.
proof fn literal_next_sep_with_name(dir: Seq<char>, name: Seq<char>, from: int)
    requires
        0 <= from <= dir.len(),
    ensures
        winpath::next_sep(dir + seq!['\\'] + name, from, true) == winpath::next_sep(dir, from, true),
{
    let path = dir + seq!['\\'] + name;
    next_sep_is_next(dir, from, true);
    let end = winpath::next_sep(dir, from, true);
    assert forall|i: int| from <= i < end implies !winpath::separates(#[trigger] path[i], true) by {
        assert(path[i] == dir[i]);
    }
    next_sep_found(path, from, true, end);
}

/// A folder that is read literally only with a simple name behind it is `\\?`, and
/// the path then is nothing but a prefix.
pub proof fn mark_and_name_are_a_prefix(dir: Seq<char>, name: Seq<char>)
    requires
        !winpath::is_verbatim(dir),
        !winpath::is_sep(dir.last()),
        dir.len() > 0,
        is_simple_name(name),
        winpath::is_verbatim(dir + seq!['\\'] + name),
    ensures
        is_plainly_written(dir + seq!['\\'] + name),
{
    let path = dir + seq!['\\'] + name;
    let n = path.len() as int;
    assert forall|i: int| 0 <= i < dir.len() implies path[i] == dir[i] by {}
    assert forall|i: int| dir.len() < i < n implies !winpath::is_sep(#[trigger] path[i]) && path[i]
        != ':' by {
        assert(path[i] == name[i - dir.len() - 1]);
    }
    assert(dir.len() == 3) by {
        if dir.len() < 3 {
            assert(path[3] == '\\');
        }
    }
    next_sep_found(path, 4, true, n);
    assert(winpath::prefix_len(path) == n);
    assert(path.subrange(0, n) =~= path);
    assert(winpath::components(path) =~= seq![winpath::ComponentView::Prefix(path)]);
    only_component(winpath::ComponentView::Prefix(path));
}

/// The extension of a name is what follows its last dot, where something stands
/// before that dot; a name without a dot, or with only one at its front, has none.
pub proof fn extension_is_after_the_last_dot(stem: Seq<char>, ext: Seq<char>)
    requires
        forall|i: int| 0 <= i < ext.len() ==> #[trigger] ext[i] != '.',
    ensures
        stem.len() > 0 ==> winpath::name_extension(stem + seq!['.'] + ext) == Some(ext),
        stem.len() > 0 ==> winpath::stem_len(stem + seq!['.'] + ext) == stem.len(),
        winpath::name_extension(ext) is None,
        winpath::stem_len(ext) == ext.len(),
        winpath::name_extension(seq!['.'] + ext) is None,
        winpath::stem_len(seq!['.'] + ext) == ext.len() + 1,
{
    let name = stem + seq!['.'] + ext;
    text::last_index_of_is_last(name, '.');
    assert(name[stem.len() as int] == '.');
    assert forall|i: int| stem.len() < i < name.len() implies name[i] != '.' by {
        assert(name[i] == ext[i - stem.len() - 1]);
    }
    assert(text::last_index_of(name, '.') == stem.len());
    assert(name.skip(stem.len() as int + 1) =~= ext);
    text::last_index_of_is_last(ext, '.');
    let hidden = seq!['.'] + ext;
    text::last_index_of_is_last(hidden, '.');
    assert(hidden[0] == '.');
    assert forall|i: int| 0 < i < hidden.len() implies hidden[i] != '.' by {
        assert(hidden[i] == ext[i - 1]);
    }
}

/// Neither of the two separators stands in the text.
pub open spec fn has_no_separator(text: Seq<char>) -> bool {
    forall|i: int| 0 <= i < text.len() ==> #[trigger] text[i] != '\\' && text[i] != '/'
}

/// A path that starts with a letter and a colon starts with that drive, and with a
/// root only where a separator follows.
pub proof fn drive_is_a_prefix(letter: char, rest: Seq<char>)
    requires
        'a' <= letter <= 'z' || 'A' <= letter <= 'Z',
    ensures
        ({
            let path = seq![letter, ':'] + rest;
            &&& winpath::prefix_kind(path) == winpath::PrefixKind::Drive
            &&& winpath::prefix_len(path) == 2
            &&& winpath::is_bare_drive(path) == (rest.len() == 0)
            &&& winpath::has_root(path) == (rest.len() > 0 && (rest[0] == '\\' || rest[0] == '/'))
        }),
{
    let path = seq![letter, ':'] + rest;
    assert(path[0] == letter && path[1] == ':');
    if rest.len() > 0 {
        assert(path[2] == rest[0]);
    }
}

/// A path that starts neither with a letter and a colon nor with two separators has
/// no prefix, and a root only where it starts with a separator.
pub proof fn other_starts_are_no_prefix(path: Seq<char>)
    requires
        path.len() >= 2 ==> !(('a' <= path[0] <= 'z' || 'A' <= path[0] <= 'Z') && path[1] == ':'),
        path.len() >= 2 ==> !((path[0] == '\\' || path[0] == '/') && (path[1] == '\\' || path[1]
            == '/')),
    ensures
        winpath::prefix_kind(path) == winpath::PrefixKind::Plain,
        winpath::prefix_len(path) == 0,
        winpath::has_root(path) == (path.len() > 0 && (path[0] == '\\' || path[0] == '/')),
        !winpath::is_bare_drive(path),
{
}

/// Two separators, the name of a server, a separator and the name of a share are one
/// prefix, unless they are the mark of a path that is read literally.
#[verifier::spinoff_prover]
#[verifier::rlimit(60)]
pub proof fn server_and_share_are_a_prefix(
    a: char,
    b: char,
    server: Seq<char>,
    c: char,
    share: Seq<char>,
    rest: Seq<char>,
)
    requires
        a == '\\' || a == '/',
        b == '\\' || b == '/',
        c == '\\' || c == '/',
        server.len() > 0,
        share.len() > 0,
        has_no_separator(server),
        has_no_separator(share),
        rest.len() > 0 ==> rest[0] == '\\' || rest[0] == '/',
        !(a == '\\' && b == '\\' && c == '\\' && server == seq!['?']),
    ensures
        ({
            let path = seq![a, b] + server + seq![c] + share + rest;
            &&& winpath::prefix_kind(path) == winpath::PrefixKind::Share
            &&& winpath::prefix_len(path) == 3 + server.len() + share.len()
            &&& winpath::has_root(path)
            &&& !winpath::is_bare_drive(path)
        }),
{
    let path = seq![a, b] + server + seq![c] + share + rest;
    let first = 2 + server.len() as int;
    let second = first + 1 + share.len() as int;
    assert(path[0] == a && path[1] == b);
    assert(path[first] == c);
    assert forall|i: int| 2 <= i < first implies !winpath::separates(#[trigger] path[i], false) by {
        assert(path[i] == server[i - 2]);
    }
    assert forall|i: int| first < i < second implies !winpath::separates(
        #[trigger] path[i],
        false,
    ) by {
        assert(path[i] == share[i - first - 1]);
    }
    if rest.len() > 0 {
        assert(path[second] == rest[0]);
    }
    next_sep_found(path, 2, false, first);
    next_sep_found(path, first + 1, false, second);
    assert(!winpath::has_verbatim_mark(path)) by {
        if winpath::has_verbatim_mark(path) {
            assert(path[2] == server[0]);
            if server.len() > 1 {
                assert(path[3] == server[1]);
            }
            assert(server =~= seq!['?']);
        }
    }
    if winpath::has_device_mark(path) {
        assert(path[2] == server[0]);
        if server.len() > 1 {
            assert(path[3] == server[1]);
        }
        assert(server.len() == 1);
        next_sep_found(path, 4, false, second);
    }
}

/// `\\?\` and a drive are one prefix, and the path is read literally.
pub proof fn literal_drive_is_a_prefix(letter: char, rest: Seq<char>)
    requires
        'a' <= letter <= 'z' || 'A' <= letter <= 'Z',
        rest.len() > 0 ==> rest[0] == '\\',
    ensures
        ({
            let path = seq!['\\', '\\', '?', '\\', letter, ':'] + rest;
            &&& winpath::is_verbatim(path)
            &&& winpath::prefix_len(path) == 6
            &&& !winpath::is_bare_drive(path)
        }),
{
    let path = seq!['\\', '\\', '?', '\\', letter, ':'] + rest;
    assert(path[0] == '\\' && path[1] == '\\' && path[2] == '?' && path[3] == '\\');
    assert(path[4] == letter && path[5] == ':');
    if rest.len() > 0 {
        assert(path[6] == '\\');
    }
}

/// A path is read literally just where it starts with `\\?\`.
pub proof fn literal_paths_have_the_mark(path: Seq<char>)
    ensures
        winpath::is_verbatim(path) == (path.len() >= 4 && path[0] == '\\' && path[1] == '\\'
            && path[2] == '?' && path[3] == '\\'),
{
}

/// A drive that is read literally, and the names below it.
pub open spec fn literal_path(letter: char, names: Seq<Seq<char>>) -> Seq<char>
    decreases names.len(),
{
    if names.len() == 0 {
        seq!['\\', '\\', '?', '\\', letter, ':']
    } else {
        literal_path(letter, names.drop_last()) + seq!['\\'] + names.last()
    }
}

/// A path of a literal drive and simple names is plainly written, and a further name
/// is joined to it behind a separator.
pub proof fn literal_path_is_plain(letter: char, names: Seq<Seq<char>>, name: Seq<char>)
    requires
        'a' <= letter <= 'z' || 'A' <= letter <= 'Z',
        forall|i: int| 0 <= i < names.len() ==> is_simple_name(#[trigger] names[i]),
        is_simple_name(name),
    ensures
        winpath::is_verbatim(literal_path(letter, names)),
        is_plainly_written(literal_path(letter, names)),
        literal_path(letter, names).len() > 0,
        !winpath::is_sep(literal_path(letter, names).last()),
        winpath::join(literal_path(letter, names), name) == literal_path(letter, names) + seq!['\\']
            + name,
    decreases names.len(),
{
    let path = literal_path(letter, names);
    if names.len() == 0 {
        literal_drive_is_a_prefix(letter, Seq::empty());
        assert(seq!['\\', '\\', '?', '\\', letter, ':'] + Seq::<char>::empty() =~= path);
        assert(path.subrange(0, 6) =~= path);
        assert(winpath::components(path) =~= seq![winpath::ComponentView::Prefix(path)]);
        only_component(winpath::ComponentView::Prefix(path));
    } else {
        let front = names.drop_last();
        let last = names.last();
        assert(is_simple_name(names[names.len() - 1]));
        assert forall|i: int| 0 <= i < front.len() implies is_simple_name(#[trigger] front[i]) by {
            assert(front[i] == names[i]);
        }
        literal_path_is_plain(letter, front, last);
        literal_folder_stays_plain(literal_path(letter, front), last);
        assert(path.last() == last[last.len() - 1]);
        assert(!winpath::is_sep(last[last.len() - 1]));
    }
    simple_name_is_one_component(name);
    literal_join_is_plain(path, name);
}

/// The last component of a path behind a separator is its file name, whole, where it
/// does not belong to the prefix.
pub proof fn last_part_is_the_file_name(front: Seq<char>, sep: char, name: Seq<char>)
    requires
        sep == '\\' || sep == '/',
        winpath::is_verbatim(front + seq![sep] + name) ==> sep == '\\',
        name.len() > 0,
        forall|i: int|
            0 <= i < name.len() ==> #[trigger] name[i] != '\\' && (name[i] != '/'
                || winpath::is_verbatim(front + seq![sep] + name)),
        name != seq!['.'],
        name != seq!['.', '.'],
        winpath::prefix_len(front + seq![sep] + name) <= front.len(),
    ensures
        winpath::file_name(front + seq![sep] + name) == Some(name),
        winpath::name_span(front + seq![sep] + name) == Some(
            (front.len() as int + 1, (front.len() + 1 + name.len()) as int),
        ),
{
    let path = front + seq![sep] + name;
    let start = front.len() as int + 1;
    assert(path[front.len() as int] == sep);
    assert forall|i: int| start <= i < path.len() implies !winpath::separates(
        #[trigger] path[i],
        winpath::is_verbatim(path),
    ) by {
        assert(path[i] == name[i - start]);
    }
    assert(path.skip(start) =~= name);
    name_at_the_end(path, start);
    assert(path.subrange(start, path.len() as int) =~= name);
}

proof fn name_at_the_end(path: Seq<char>, start: int)
    requires
        0 <= start < path.len(),
        winpath::prefix_len(path) <= start,
        start == winpath::prefix_len(path) || winpath::separates(
            path[start - 1],
            winpath::is_verbatim(path),
        ),
        winpath::is_verbatim(path) ==> winpath::prefix_len(path) < start,
        forall|i: int|
            start <= i < path.len() ==> !winpath::separates(
                #[trigger] path[i],
                winpath::is_verbatim(path),
            ),
        path.skip(start) != seq!['.'],
        path.skip(start) != seq!['.', '.'],
    ensures
        winpath::name_span(path) == Some((start, path.len() as int)),
{
    let n = path.len() as int;
    let verbatim = winpath::is_verbatim(path);
    let low = winpath::body_start(path);
    let at = winpath::prefix_len(path);
    let name = path.skip(start);
    body_starts_in_the_path(path);
    assert(path.subrange(start, n) =~= name);
    assert(low <= start) by {
        if low > start {
            assert(start == at && low == at + 1);
            assert(!winpath::separates(path[start], false));
            assert(winpath::starts_with_dot(path));
            if n == at + 1 {
                assert(name =~= seq!['.']);
            } else {
                assert(!winpath::separates(path[at + 1], false));
            }
        }
    }
    piece_start_found(path, low, n, verbatim, start);
}

/// A simple name alone, and one right behind a drive, is the file name.
pub proof fn bare_name_is_the_file_name(letter: char, name: Seq<char>)
    requires
        is_simple_name(name),
        'a' <= letter <= 'z' || 'A' <= letter <= 'Z',
    ensures
        winpath::file_name(name) == Some(name),
        winpath::name_span(name) == Some((0int, name.len() as int)),
        winpath::file_name(seq![letter, ':'] + name) == Some(name),
        winpath::name_span(seq![letter, ':'] + name) == Some((2int, name.len() as int + 2)),
{
    simple_name_is_one_component(name);
    assert(!winpath::is_sep(name[0]));
    assert(name.skip(0) =~= name);
    assert(winpath::prefix_len(name) == 0) by {
        if name.len() >= 2 {
            assert(name[1] != ':');
        }
        other_starts_are_no_prefix(name);
    }
    assert forall|i: int| 0 <= i < name.len() implies !winpath::separates(
        #[trigger] name[i],
        winpath::is_verbatim(name),
    ) by {
        assert(!winpath::is_sep(name[i]));
    }
    name_at_the_end(name, 0);
    assert(name.subrange(0, name.len() as int) =~= name);
    let path = seq![letter, ':'] + name;
    drive_is_a_prefix(letter, name);
    assert(path.skip(2) =~= name);
    assert forall|i: int| 2 <= i < path.len() implies !winpath::separates(
        #[trigger] path[i],
        winpath::is_verbatim(path),
    ) by {
        assert(path[i] == name[i - 2]);
        assert(!winpath::is_sep(name[i - 2]));
    }
    name_at_the_end(path, 2);
    assert(path.subrange(2, path.len() as int) =~= name);
}

/// A path that ends in two dots has no file name.
pub proof fn two_dots_are_no_file_name(front: Seq<char>, sep: char)
    requires
        sep == '\\' || sep == '/',
        winpath::is_verbatim(front + seq![sep, '.', '.']) ==> sep == '\\',
        winpath::prefix_len(front + seq![sep, '.', '.']) <= front.len(),
    ensures
        winpath::file_name(front + seq![sep, '.', '.']) is None,
        winpath::file_name(seq!['.', '.']) is None,
        winpath::file_name(Seq::<char>::empty()) is None,
{
    let path = front + seq![sep, '.', '.'];
    let start = front.len() as int + 1;
    let n = path.len() as int;
    let verbatim = winpath::is_verbatim(path);
    body_starts_in_the_path(path);
    assert(path[start - 1] == sep && path[start] == '.' && path[start + 1] == '.');
    assert(path.subrange(start, n) =~= seq!['.', '.']);
    let low = winpath::body_start(path);
    assert(low <= start);
    piece_start_found(path, low, n, verbatim, start);
    assert(seq!['.', '.'].len() != seq!['.'].len());
    let dots = seq!['.', '.'];
    other_starts_are_no_prefix(dots);
    assert(winpath::body_start(dots) == 0);
    piece_start_found(dots, 0, 2, false, 0);
    assert(dots.subrange(0, 2) =~= dots);
}

/// A separator at the end does not change the file name, nor what the path is with
/// another extension, unless it makes the path one that is read literally.
#[verifier::spinoff_prover]
#[verifier::rlimit(60)]
pub proof fn separator_at_the_end_does_not_matter(path: Seq<char>, sep: char, ext: Seq<char>)
    requires
        sep == '\\' || sep == '/',
        winpath::is_verbatim(path) ==> sep == '\\',
        winpath::is_verbatim(path.push(sep)) == winpath::is_verbatim(path),
        winpath::file_name(path) is Some,
    ensures
        winpath::file_name(path.push(sep)) == winpath::file_name(path),
        winpath::with_extension(path.push(sep), ext) == winpath::with_extension(path, ext),
{
    let other = path.push(sep);
    let n = path.len() as int;
    let verbatim = winpath::is_verbatim(path);
    let (start, end) = winpath::name_span(path)->Some_0;
    file_name_has_no_separator(path);
    body_starts_in_the_path(path);
    body_starts_in_the_path(other);
    same_prefix_with_separator(path, sep);
    let at = winpath::prefix_len(path);
    assert(at <= start < n);
    assert(other[at] == path[at]);
    assert(winpath::has_root_sep(other) == winpath::has_root_sep(path));
    assert(winpath::starts_with_dot(other) == winpath::starts_with_dot(path)) by {
        if winpath::starts_with_dot(other) {
            if at + 1 == n {
                assert(path.len() == at + 1);
            } else {
                assert(other[at + 1] == path[at + 1]);
            }
        }
        if winpath::starts_with_dot(path) && path.len() > at + 1 {
            assert(other[at + 1] == path[at + 1]);
        }
    }
    let low = winpath::body_start(path);
    assert(winpath::body_start(other) == low);
    piece_start_found(other, low, n + 1, verbatim, n + 1);
    assert(other.subrange(n + 1, n + 1).len() == 0);
    assert(winpath::last_span(other, low, n + 1, verbatim) == winpath::last_span(
        other,
        low,
        n,
        verbatim,
    ));
    same_last_span(path, other, low, n, verbatim);
    assert(other.subrange(start, end) =~= path.subrange(start, end));
    let stem = winpath::stem_len(path.subrange(start, end));
    text::last_index_of_is_last(path.subrange(start, end), '.');
    assert(other.subrange(0, start + stem) =~= path.subrange(0, start + stem));
}

proof fn same_last_span(path: Seq<char>, other: Seq<char>, low: int, high: int, verbatim: bool)
    requires
        0 <= low <= high <= path.len() <= other.len(),
        forall|i: int| 0 <= i < path.len() ==> #[trigger] path[i] == other[i],
    ensures
        winpath::last_span(other, low, high, verbatim) == winpath::last_span(
            path,
            low,
            high,
            verbatim,
        ),
    decreases high - low,
{
    if low < high {
        piece_starts_after_separator(path, low, high, verbatim);
        let start = winpath::piece_start(path, low, high, verbatim);
        if start > low {
            assert(path[start - 1] == other[start - 1]);
        }
        assert forall|i: int| start <= i < high implies !winpath::separates(
            #[trigger] other[i],
            verbatim,
        ) by {
            assert(path[i] == other[i]);
        }
        piece_start_found(other, low, high, verbatim, start);
        assert(other.subrange(start, high) =~= path.subrange(start, high));
        if start > low {
            same_last_span(path, other, low, start - 1, verbatim);
        }
    }
}

proof fn same_sep_with_separator(path: Seq<char>, sep: char, from: int, verbatim: bool)
    requires
        winpath::separates(sep, verbatim),
        0 <= from <= path.len(),
    ensures
        winpath::next_sep(path.push(sep), from, verbatim) == winpath::next_sep(
            path,
            from,
            verbatim,
        ),
        winpath::two_components_end(path.push(sep), from, verbatim) == winpath::two_components_end(
            path,
            from,
            verbatim,
        ),
{
    let other = path.push(sep);
    next_sep_is_next(path, from, verbatim);
    let first = winpath::next_sep(path, from, verbatim);
    assert forall|i: int| from <= i < first implies !winpath::separates(
        #[trigger] other[i],
        verbatim,
    ) by {
        assert(other[i] == path[i]);
    }
    next_sep_found(other, from, verbatim, first);
    if first < path.len() {
        next_sep_is_next(path, first + 1, verbatim);
        let second = winpath::next_sep(path, first + 1, verbatim);
        assert forall|i: int| first + 1 <= i < second implies !winpath::separates(
            #[trigger] other[i],
            verbatim,
        ) by {
            assert(other[i] == path[i]);
        }
        next_sep_found(other, first + 1, verbatim, second);
    } else {
        next_sep_found(other, first + 1, verbatim, first + 1);
    }
}

#[verifier::spinoff_prover]
#[verifier::rlimit(60)]
proof fn same_prefix_with_separator(path: Seq<char>, sep: char)
    requires
        sep == '\\' || sep == '/',
        winpath::is_verbatim(path) ==> sep == '\\',
        winpath::is_verbatim(path.push(sep)) == winpath::is_verbatim(path),
        winpath::file_name(path) is Some,
    ensures
        winpath::prefix_kind(path.push(sep)) == winpath::prefix_kind(path),
        winpath::prefix_len(path.push(sep)) == winpath::prefix_len(path),
{
    let other = path.push(sep);
    let (start, end) = winpath::name_span(path)->Some_0;
    file_name_has_no_separator(path);
    body_starts_in_the_path(path);
    let n = path.len() as int;
    assert(winpath::prefix_len(path) < n);
    assert forall|i: int| 0 <= i < n implies other[i] == path[i] by {}
    if winpath::has_verbatim_mark(path) {
        same_sep_with_separator(path, sep, 4, true);
        next_sep_is_next(path, 4, true);
        if n >= 8 {
            same_sep_with_separator(path, sep, 8, true);
        }
        assert(winpath::has_verbatim_share_mark(other) == winpath::has_verbatim_share_mark(path)) by {
            if winpath::has_verbatim_share_mark(other) && n == 7 {
                assert(winpath::next_sep(path, 4, true) == 7) by {
                    next_sep_found(path, 4, true, 7);
                }
            }
        }
        assert(winpath::has_verbatim_drive(other) == winpath::has_verbatim_drive(path));
    } else {
        if n >= 4 {
            same_sep_with_separator(path, sep, 4, false);
        }
        if n >= 2 {
            same_sep_with_separator(path, sep, 2, false);
        }
        assert(winpath::has_device_mark(other) == winpath::has_device_mark(path)) by {
            if winpath::has_device_mark(other) && n == 3 {
                assert(path[0] == other[0] && path[1] == other[1] && path[2] == '.');
                dot_after_two_separators(path);
            }
        }
        if n == 1 {
            assert(other[0] == path[0]);
            if winpath::is_sep(path[0]) {
                assert(!winpath::is_sep(path[start]));
            }
        }
    }
}

proof fn dot_after_two_separators(path: Seq<char>)
    requires
        path.len() == 3,
        winpath::is_sep(path[0]),
        winpath::is_sep(path[1]),
        path[2] == '.',
    ensures
        winpath::file_name(path) is None,
{
    next_sep_found(path, 2, false, 3);
    assert(winpath::prefix_len(path) == 0);
    assert(winpath::body_start(path) == 1);
    piece_start_found(path, 1, 3, false, 2);
    assert(path.subrange(2, 3) =~= seq!['.']);
    assert(winpath::last_span(path, 1, 1, false) is None);
    assert(winpath::last_span(path, 1, 3, false) is None);
}

/// A path gets another extension behind the stem of its file name, and keeps all
/// that stands before.
pub proof fn extension_is_put_behind_the_stem(
    front: Seq<char>,
    stem: Seq<char>,
    old: Seq<char>,
    ext: Seq<char>,
)
    requires
        stem.len() > 0,
        forall|i: int| 0 <= i < old.len() ==> #[trigger] old[i] != '.',
        ext.len() > 0,
        winpath::name_span(front + stem + seq!['.'] + old) == Some(
            (front.len() as int, (front + stem + seq!['.'] + old).len() as int),
        ),
    ensures
        winpath::with_extension(front + stem + seq!['.'] + old, ext) == front + stem + seq!['.']
            + ext,
        winpath::with_extension(front + stem + seq!['.'] + old, Seq::empty()) == front + stem,
        winpath::extension(front + stem + seq!['.'] + old) == Some(old),
{
    let path = front + stem + seq!['.'] + old;
    let name = stem + seq!['.'] + old;
    assert(path.subrange(front.len() as int, path.len() as int) =~= name);
    extension_is_after_the_last_dot(stem, old);
    assert(path.subrange(0, (front.len() + stem.len()) as int) =~= front + stem);
}

/// A file name without a dot behind its front gets the extension behind all of it.
pub proof fn extension_is_put_behind_the_name(front: Seq<char>, name: Seq<char>, ext: Seq<char>)
    requires
        forall|i: int| 0 < i < name.len() ==> #[trigger] name[i] != '.',
        name.len() > 0,
        ext.len() > 0,
        winpath::name_span(front + name) == Some((front.len() as int, (front + name).len() as int)),
    ensures
        winpath::with_extension(front + name, ext) == front + name + seq!['.'] + ext,
        winpath::with_extension(front + name, Seq::empty()) == front + name,
        winpath::extension(front + name) is None,
{
    let path = front + name;
    assert(path.subrange(front.len() as int, path.len() as int) =~= name);
    text::last_index_of_is_last(name, '.');
    assert(text::last_index_of(name, '.') <= 0);
    assert(path.subrange(0, (front.len() + name.len()) as int) =~= path);
}

/// A path without a file name has no extension and gets none.
pub proof fn no_name_no_extension(path: Seq<char>, ext: Seq<char>)
    requires
        winpath::file_name(path) is None,
    ensures
        winpath::extension(path) is None,
        winpath::with_extension(path, ext) == path,
{
}

/// A relative name is joined behind a separator, unless the folder is empty, ends in
/// one or is a drive alone. All of the folder and all of the name stay.
pub proof fn relative_name_is_joined_behind(base: Seq<char>, name: Seq<char>)
    requires
        !(base.len() >= 4 && base[0] == '\\' && base[1] == '\\' && base[2] == '?' && base[3]
            == '\\'),
        name.len() >= 2 ==> !(('a' <= name[0] <= 'z' || 'A' <= name[0] <= 'Z') && name[1] == ':'),
        name.len() > 0 ==> name[0] != '\\' && name[0] != '/',
    ensures
        ({
            let glued = base.len() == 0 || base[base.len() - 1] == '\\' || base[base.len() - 1]
                == '/' || (base.len() == 2 && ('a' <= base[0] <= 'z' || 'A' <= base[0] <= 'Z')
                && base[1] == ':');
            &&& glued ==> winpath::join(base, name) == base + name
            &&& !glued ==> winpath::join(base, name) == base + seq!['\\'] + name
        }),
{
    other_starts_are_no_prefix(name);
}

/// A name that starts with a drive leads where it says, from any folder.
pub proof fn name_with_a_drive_leads_there(base: Seq<char>, letter: char, rest: Seq<char>)
    requires
        'a' <= letter <= 'z' || 'A' <= letter <= 'Z',
    ensures
        winpath::join(base, seq![letter, ':'] + rest) == seq![letter, ':'] + rest,
{
    drive_is_a_prefix(letter, rest);
}

/// A name that starts at the root keeps only the folder's drive.
pub proof fn name_from_the_root_keeps_the_drive(
    letter: char,
    rest: Seq<char>,
    base: Seq<char>,
    name: Seq<char>,
)
    requires
        'a' <= letter <= 'z' || 'A' <= letter <= 'Z',
        name.len() > 0,
        name[0] == '\\' || name[0] == '/',
        name.len() >= 2 ==> name[1] != '\\' && name[1] != '/',
        base.len() >= 2 ==> !(('a' <= base[0] <= 'z' || 'A' <= base[0] <= 'Z') && base[1] == ':'),
        base.len() >= 2 ==> !((base[0] == '\\' || base[0] == '/') && (base[1] == '\\' || base[1]
            == '/')),
    ensures
        winpath::join(seq![letter, ':'] + rest, name) == seq![letter, ':'] + name,
        winpath::join(base, name) == name,
{
    other_starts_are_no_prefix(name);
    other_starts_are_no_prefix(base);
    drive_is_a_prefix(letter, rest);
    let drive = seq![letter, ':'] + rest;
    assert(drive.subrange(0, 2) =~= seq![letter, ':']);
    assert(base.subrange(0, 0) + name =~= name);
}

/// A further name behind a separator is a further component.
pub proof fn further_name_is_a_further_component(front: Seq<char>, sep: char, name: Seq<char>)
    requires
        sep == '\\' || sep == '/',
        winpath::is_verbatim(front) ==> sep == '\\',
        is_simple_name(name),
        winpath::prefix_kind(front + seq![sep] + name) == winpath::prefix_kind(front),
        winpath::prefix_len(front + seq![sep] + name) == winpath::prefix_len(front),
        winpath::prefix_len(front) < front.len(),
    ensures
        winpath::components(front + seq![sep] + name) == winpath::components(front).push(
            winpath::ComponentView::Name(name),
        ),
{
    let path = front + seq![sep] + name;
    let n = front.len() as int;
    let verbatim = winpath::is_verbatim(front);
    let at = winpath::prefix_len(front);
    body_starts_in_the_path(front);
    body_starts_in_the_path(path);
    assert(path[n] == sep);
    assert(path[at] == front[at]);
    assert(path.take(n) =~= front);
    if at + 1 < n {
        assert(path[at + 1] == front[at + 1]);
    }
    let low = winpath::body_start(front);
    assert(winpath::body_start(path) == low);
    separator_parts_components(path, low, n, verbatim);
    assert forall|i: int| n + 1 <= i < path.len() implies !winpath::separates(
        #[trigger] path[i],
        verbatim,
    ) by {
        assert(path[i] == name[i - n - 1]);
        assert(!winpath::is_sep(name[i - n - 1]));
    }
    next_sep_found(path, n + 1, verbatim, path.len() as int);
    assert(path.subrange(n + 1, path.len() as int) =~= name);
    assert(winpath::components_from(path, path.len() as int + 1, verbatim) =~= Seq::empty());
    let tail = seq![winpath::ComponentView::Name(name)];
    assert(winpath::components_from(path, n + 1, verbatim) =~= tail);
    assert(path.subrange(0, at) =~= front.subrange(0, at));
    assert(winpath::components(path) =~= winpath::components(front) + tail);
    assert(winpath::components(front) + tail =~= winpath::components(front).push(tail[0]));
}

/// The functions on paths give what is said of them here.
pub proof fn path_functions_give_this(
    path: &str,
    other: &str,
    chars: &Vec<char>,
    name: Option<String>,
    ext: Option<String>,
    with: String,
    joined: String,
    prefix: winpath::Prefix,
    span: Option<(usize, usize)>,
)
    requires
        call_ensures(winpath::path_file_name, (path,), name),
        call_ensures(winpath::path_extension, (path,), ext),
        call_ensures(winpath::path_with_extension, (path, other), with),
        call_ensures(winpath::join_paths, (path, other), joined),
        call_ensures(winpath::parse_prefix, (chars,), prefix),
        call_ensures(winpath::find_name, (chars,), span),
    ensures
        name is Some == winpath::file_name(path@) is Some,
        name matches Some(text) ==> winpath::file_name(path@) == Some(text@),
        ext is Some == winpath::extension(path@) is Some,
        ext matches Some(text) ==> winpath::extension(path@) == Some(text@),
        with@ == winpath::with_extension(path@, other@),
        joined@ == winpath::join(path@, other@),
        prefix.kind == winpath::prefix_kind(chars@),
        prefix.len == winpath::prefix_len(chars@),
        span is Some == winpath::name_span(chars@) is Some,
        span matches Some((start, end)) ==> winpath::name_span(chars@) == Some(
            (start as int, end as int),
        ),
{
}

/// Two separators without the names of a server and of a share are no prefix.
#[verifier::spinoff_prover]
#[verifier::rlimit(60)]
pub proof fn two_separators_alone_are_no_prefix(
    a: char,
    b: char,
    server: Seq<char>,
    c: char,
    rest: Seq<char>,
)
    requires
        a == '\\' || a == '/',
        b == '\\' || b == '/',
        c == '\\' || c == '/',
        has_no_separator(server),
        server != seq!['?'],
        server != seq!['.'],
        server.len() == 0 || rest.len() == 0 || rest[0] == '\\' || rest[0] == '/',
    ensures
        winpath::prefix_kind(seq![a, b] + server) == winpath::PrefixKind::Plain,
        winpath::prefix_len(seq![a, b] + server) == 0,
        winpath::prefix_kind(seq![a, b] + server + seq![c] + rest) == winpath::PrefixKind::Plain,
        winpath::prefix_len(seq![a, b] + server + seq![c] + rest) == 0,
{
    let short = seq![a, b] + server;
    let path = seq![a, b] + server + seq![c] + rest;
    let first = 2 + server.len() as int;
    assert(short[0] == a && short[1] == b && path[0] == a && path[1] == b);
    assert(path[first] == c);
    assert forall|i: int| 2 <= i < first implies !winpath::separates(#[trigger] path[i], false) by {
        assert(path[i] == server[i - 2]);
    }
    assert forall|i: int| 2 <= i < first implies !winpath::separates(
        #[trigger] short[i],
        false,
    ) by {
        assert(short[i] == server[i - 2]);
    }
    next_sep_found(short, 2, false, first);
    next_sep_found(path, 2, false, first);
    if rest.len() > 0 {
        assert(path[first + 1] == rest[0]);
    }
    if server.len() > 0 {
        assert(path[2] == server[0] && short[2] == server[0]);
        next_sep_found(path, first + 1, false, first + 1);
        if server.len() == 1 {
            assert(server[0] != '?') by {
                if server[0] == '?' {
                    assert(server =~= seq!['?']);
                }
            }
            assert(server[0] != '.') by {
                if server[0] == '.' {
                    assert(server =~= seq!['.']);
                }
            }
        } else {
            assert(path[3] == server[1] && short[3] == server[1]);
        }
    } else {
        assert(path[2] == c);
    }
}

/// `\\?\UNC\`, the name of a server and the name of a share are one prefix.
pub proof fn literal_share_is_a_prefix(server: Seq<char>, share: Seq<char>, rest: Seq<char>)
    requires
        share.len() > 0,
        forall|i: int| 0 <= i < server.len() ==> #[trigger] server[i] != '\\',
        forall|i: int| 0 <= i < share.len() ==> #[trigger] share[i] != '\\',
        rest.len() > 0 ==> rest[0] == '\\',
    ensures
        ({
            let path = seq!['\\', '\\', '?', '\\', 'U', 'N', 'C', '\\'] + server + seq!['\\'] + share
                + rest;
            &&& winpath::is_verbatim(path)
            &&& winpath::prefix_len(path) == 9 + server.len() + share.len()
        }),
{
    let mark = seq!['\\', '\\', '?', '\\', 'U', 'N', 'C', '\\'];
    let path = mark + server + seq!['\\'] + share + rest;
    let first = 8 + server.len() as int;
    let second = first + 1 + share.len() as int;
    assert forall|i: int| 0 <= i < 8 implies path[i] == mark[i] by {}
    assert(path[0] == mark[0] && path[1] == mark[1] && path[2] == mark[2] && path[3] == mark[3]);
    assert(path[4] == mark[4] && path[5] == mark[5] && path[6] == mark[6] && path[7] == mark[7]);
    assert(path[first] == '\\');
    assert forall|i: int| 8 <= i < first implies !winpath::separates(#[trigger] path[i], true) by {
        assert(path[i] == server[i - 8]);
    }
    assert forall|i: int| first < i < second implies !winpath::separates(
        #[trigger] path[i],
        true,
    ) by {
        assert(path[i] == share[i - first - 1]);
    }
    if rest.len() > 0 {
        assert(path[second] == rest[0]);
    }
    next_sep_found(path, 8, true, first);
    next_sep_found(path, first + 1, true, second);
}

/// `\\?\` and any other first name are one prefix.
#[verifier::spinoff_prover]
#[verifier::rlimit(60)]
pub proof fn literal_name_is_a_prefix(name: Seq<char>, rest: Seq<char>)
    requires
        forall|i: int| 0 <= i < name.len() ==> #[trigger] name[i] != '\\' && name[i] != '/'
            && name[i] != ':',
        name != seq!['U', 'N', 'C'],
        rest.len() > 0 ==> rest[0] == '\\',
    ensures
        winpath::is_verbatim(seq!['\\', '\\', '?', '\\'] + name + rest),
        winpath::prefix_len(seq!['\\', '\\', '?', '\\'] + name + rest) == 4 + name.len(),
{
    let mark = seq!['\\', '\\', '?', '\\'];
    let path = mark + name + rest;
    let end = 4 + name.len() as int;
    assert(path[0] == mark[0] && path[1] == mark[1] && path[2] == mark[2] && path[3] == mark[3]);
    assert forall|i: int| 4 <= i < end implies !winpath::separates(#[trigger] path[i], true) && path[
        i
    ] != ':' && path[i] != '/' by {
        assert(path[i] == name[i - 4]);
    }
    if rest.len() > 0 {
        assert(path[end] == '\\');
    }
    next_sep_found(path, 4, true, end);
    assert(!winpath::has_verbatim_drive(path)) by {
        if winpath::has_verbatim_drive(path) {
            assert(path[4] != '\\' && path[5] != '\\');
            if end <= 4 {
                assert(path[end] == '\\');
            }
            if end == 5 {
                assert(path[5] == '\\');
            }
            assert(path[5] != ':');
        }
    }
    assert(!winpath::has_verbatim_share_mark(path)) by {
        if winpath::has_verbatim_share_mark(path) {
            if end < 7 {
                assert(path[end] == '\\');
            } else if end > 7 {
                assert(path[7] != '/' && !winpath::separates(path[7], true));
            } else {
                assert(path[4] == name[0] && path[5] == name[1] && path[6] == name[2]);
                assert(name =~= seq!['U', 'N', 'C']);
            }
        }
    }
}

/// Two dots lead one name up from a path of a literal drive, and a name from the root
/// right below the drive.
#[verifier::spinoff_prover]
#[verifier::rlimit(60)]
pub proof fn steps_from_a_literal_path(letter: char, names: Seq<Seq<char>>, name: Seq<char>)
    requires
        'a' <= letter <= 'z' || 'A' <= letter <= 'Z',
        names.len() > 0,
        forall|i: int| 0 <= i < names.len() ==> is_simple_name(#[trigger] names[i]),
        is_simple_name(name),
    ensures
        names.len() > 1 ==> winpath::join(literal_path(letter, names), seq!['.', '.'])
            == literal_path(letter, names.drop_last()),
        winpath::join(literal_path(letter, names), seq!['\\'] + name) == literal_path(
            letter,
            seq![name],
        ),
{
    let path = literal_path(letter, names);
    let drive = seq!['\\', '\\', '?', '\\', letter, ':'];
    literal_components(letter, names);
    literal_path_is_plain(letter, names, name);
    let list = winpath::components(path);
    let dots = seq!['.', '.'];
    other_starts_are_no_prefix(dots);
    next_sep_found(dots, 0, false, 2);
    assert(dots.subrange(0, 2) =~= dots);
    assert(dots.len() != seq!['.'].len());
    assert(!winpath::starts_with_dot(dots));
    assert(winpath::components_from(dots, 3, false) =~= Seq::empty());
    let up = seq![winpath::ComponentView::Parent];
    assert(winpath::components(dots) =~= up);
    assert(up.drop_last() =~= Seq::empty());
    assert(winpath::step_through(list, up.drop_last()) == list);
    if names.len() > 1 {
        let front = names.drop_last();
        assert forall|i: int| 0 <= i < front.len() implies is_simple_name(#[trigger] front[i]) by {
            assert(front[i] == names[i]);
        }
        literal_components(letter, front);
        literal_path_is_plain(letter, front, name);
        let shorter = winpath::components(literal_path(letter, front));
        assert forall|j: int| 0 <= j < shorter.len() implies list[j] == shorter[j] by {
            if j >= 2 {
                assert(front[j - 2] == names[j - 2]);
            }
        }
        assert(list.drop_last() =~= shorter);
        assert(list[names.len() - 1 + 2] == winpath::ComponentView::Name(names[names.len() - 1]));
    }
    let rooted = seq!['\\'] + name;
    assert(rooted[0] == '\\');
    assert(rooted.len() >= 2 && rooted[1] == name[0]);
    assert(!winpath::is_sep(name[0]));
    other_starts_are_no_prefix(rooted);
    assert forall|i: int| 1 <= i < rooted.len() implies !winpath::separates(
        #[trigger] rooted[i],
        false,
    ) by {
        assert(rooted[i] == name[i - 1]);
        assert(!winpath::is_sep(name[i - 1]));
    }
    next_sep_found(rooted, 1, false, rooted.len() as int);
    assert(rooted.subrange(1, rooted.len() as int) =~= name);
    assert(winpath::components_from(rooted, rooted.len() as int + 1, false) =~= Seq::empty());
    let steps = seq![winpath::ComponentView::Root, winpath::ComponentView::Name(name)];
    assert(winpath::components(rooted) =~= steps);
    let one = steps.drop_last();
    assert(one =~= seq![winpath::ComponentView::Root]);
    assert(one.drop_last() =~= Seq::empty());
    assert(winpath::step_through(list, one.drop_last()) == list);
    let root = seq![winpath::ComponentView::Prefix(drive), winpath::ComponentView::Root];
    assert(winpath::step_through(list, one) =~= root);
    let out = root.push(winpath::ComponentView::Name(name));
    assert(winpath::step_through(list, steps) =~= out);
    assert(out.drop_last() =~= root);
    assert(root.drop_last() =~= seq![winpath::ComponentView::Prefix(drive)]);
    only_component(winpath::ComponentView::Prefix(drive));
    assert(winpath::render(root) =~= drive + seq!['\\']);
    let single = seq![name];
    assert(single.drop_last() =~= Seq::empty());
    assert(literal_path(letter, single.drop_last()) == drive);
    assert(winpath::render(out) =~= drive + seq!['\\'] + name);
}

/// The components of a path of a literal drive and names.
#[verifier::spinoff_prover]
#[verifier::rlimit(60)]
proof fn literal_components(letter: char, names: Seq<Seq<char>>)
    requires
        'a' <= letter <= 'z' || 'A' <= letter <= 'Z',
        names.len() > 0,
        forall|i: int| 0 <= i < names.len() ==> is_simple_name(#[trigger] names[i]),
    ensures
        ({
            let list = winpath::components(literal_path(letter, names));
            &&& list.len() == names.len() + 2
            &&& list[0] == winpath::ComponentView::Prefix(
                seq!['\\', '\\', '?', '\\', letter, ':'],
            )
            &&& list[1] == winpath::ComponentView::Root
            &&& forall|i: int|
                0 <= i < names.len() ==> list[i + 2] == winpath::ComponentView::Name(
                    #[trigger] names[i],
                )
        }),
    decreases names.len(),
{
    let path = literal_path(letter, names);
    let drive = seq!['\\', '\\', '?', '\\', letter, ':'];
    let front = names.drop_last();
    let base = literal_path(letter, front);
    let last = names.last();
    assert(is_simple_name(names[names.len() - 1]));
    assert forall|i: int| 0 <= i < front.len() implies is_simple_name(#[trigger] front[i]) by {
        assert(front[i] == names[i]);
    }
    literal_path_rest(letter, names);
    let rest = path.skip(6);
    assert(path =~= drive + rest);
    literal_drive_is_a_prefix(letter, rest);
    assert(path.subrange(0, 6) =~= drive);
    if front.len() == 0 {
        assert(base == drive);
        assert(path[6] == '\\');
        assert forall|i: int| 7 <= i < path.len() implies !winpath::separates(
            #[trigger] path[i],
            true,
        ) by {
            assert(path[i] == last[i - 7]);
            assert(!winpath::is_sep(last[i - 7]));
        }
        next_sep_found(path, 7, true, path.len() as int);
        assert(path.subrange(7, path.len() as int) =~= last);
        assert(winpath::components_from(path, path.len() as int + 1, true) =~= Seq::empty());
        assert(winpath::components(path) =~= seq![
            winpath::ComponentView::Prefix(drive),
            winpath::ComponentView::Root,
            winpath::ComponentView::Name(last),
        ]);
    } else {
        literal_components(letter, front);
        literal_path_rest(letter, front);
        let base_rest = base.skip(6);
        assert(base =~= drive + base_rest);
        literal_drive_is_a_prefix(letter, base_rest);
        further_name_is_a_further_component(base, '\\', last);
        let list = winpath::components(path);
        assert forall|i: int| 0 <= i < names.len() implies list[i + 2]
            == winpath::ComponentView::Name(#[trigger] names[i]) by {
            if i < front.len() {
                assert(names[i] == front[i]);
            }
        }
    }
}

proof fn literal_path_rest(letter: char, names: Seq<Seq<char>>)
    ensures
        literal_path(letter, names).len() >= 6,
        literal_path(letter, names).take(6) == seq!['\\', '\\', '?', '\\', letter, ':'],
        names.len() > 0 ==> literal_path(letter, names).len() > 6 && literal_path(letter, names)[6]
            == '\\',
    decreases names.len(),
{
    let path = literal_path(letter, names);
    if names.len() > 0 {
        let front = names.drop_last();
        literal_path_rest(letter, front);
        let base = literal_path(letter, front);
        assert(path.take(6) =~= base.take(6));
        if front.len() == 0 {
            assert(base.len() == 6);
            assert(path[6] == '\\');
        }
    } else {
        assert(path.take(6) =~= path);
    }
}

/// Every component of a path is given, in order.
pub proof fn all_components_are_given(chars: &Vec<char>, out: Vec<winpath::Component>, i: int)
    requires
        call_ensures(winpath::split_components, (chars,), out),
    ensures
        out@.len() == winpath::components(chars@).len(),
        0 <= i < out@.len() ==> match winpath::components(chars@)[i] {
            winpath::ComponentView::Prefix(text) => out@[i] matches winpath::Component::Prefix(same)
                && same@ == text,
            winpath::ComponentView::Root => out@[i] is Root,
            winpath::ComponentView::Current => out@[i] is Current,
            winpath::ComponentView::Parent => out@[i] is Parent,
            winpath::ComponentView::Name(name) => out@[i] matches winpath::Component::Name(same)
                && same@ == name,
        },
{
    assert(winpath::component_views(out@).len() == out@.len());
    if 0 <= i < out@.len() {
        assert(winpath::component_views(out@)[i] == out@[i]@);
    }
}

/// A single dot at the end does not change the file name of a path that is not read
/// literally, where it leaves the prefix as it is.
pub proof fn dot_at_the_end_does_not_matter(path: Seq<char>, sep: char)
    requires
        sep == '\\' || sep == '/',
        !winpath::is_verbatim(path),
        winpath::prefix_kind(path + seq![sep, '.']) == winpath::prefix_kind(path),
        winpath::prefix_len(path + seq![sep, '.']) == winpath::prefix_len(path),
        winpath::file_name(path) is Some,
    ensures
        winpath::file_name(path + seq![sep, '.']) == winpath::file_name(path),
{
    let other = path + seq![sep, '.'];
    let n = path.len() as int;
    let (start, end) = winpath::name_span(path)->Some_0;
    file_name_has_no_separator(path);
    body_starts_in_the_path(path);
    body_starts_in_the_path(other);
    let at = winpath::prefix_len(path);
    assert(other[at] == path[at]);
    assert(other[n] == sep && other[n + 1] == '.');
    assert(winpath::starts_with_dot(other) == winpath::starts_with_dot(path)) by {
        if at + 1 < n {
            assert(other[at + 1] == path[at + 1]);
        }
    }
    let low = winpath::body_start(path);
    assert(winpath::body_start(other) == low);
    piece_start_found(other, low, n + 2, false, n + 1);
    assert(other.subrange(n + 1, n + 2) =~= seq!['.']);
    assert(winpath::last_span(other, low, n + 2, false) == winpath::last_span(
        other,
        low,
        n,
        false,
    ));
    assert forall|i: int| 0 <= i < path.len() implies #[trigger] path[i] == other[i] by {}
    same_last_span(path, other, low, n, false);
    assert(other.subrange(start, end) =~= path.subrange(start, end));
}

} // verus!
