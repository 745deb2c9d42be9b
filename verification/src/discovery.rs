//! Names of NYPA DB publisher sockets: which directory entries are
//! publisher sockets, their stream ids, and the order in which they are used.
//!
//! A publisher socket is named `nypa_db_server_<stream id>.sock`.

use vstd::prelude::*;

use crate::text::{
    chars_of, ends_with, find_last, last_index_of, lemma_last_index_of, parse_usize_range, range_equals,
    rsplit_once, spec_parse_usize, strip_suffix,
};

verus! {

/// The application name that prefixes every publisher socket name.
pub open spec fn application_name() -> Seq<char> {
    seq!['n', 'y', 'p', 'a', '_', 'd', 'b', '_', 's', 'e', 'r', 'v', 'e', 'r']
}

pub open spec fn socket_suffix() -> Seq<char> {
    seq!['.', 's', 'o', 'c', 'k']
}

/// The last component of a Unix path when it is a normal name, as
/// `Path::file_name` gives it: empty components and `.` components are
/// skipped, and a final `..` (or no component at all) gives `None`.
pub open spec fn spec_file_name(path: Seq<char>) -> Option<Seq<char>>
    decreases path.len(),
{
    let i = last_index_of(path, '/');
    let seg = path.skip(i + 1);
    if seg.len() == 0 || seg == seq!['.'] {
        if i < 0 || i >= path.len() {
            None
        } else {
            spec_file_name(path.take(i))
        }
    } else if seg == seq!['.', '.'] {
        None
    } else {
        Some(seg)
    }
}

/// The stream id of a publisher socket path: the digits after the last `_`
/// of its file name, once `.sock` is stripped. The text before that `_` is
/// not checked.
pub open spec fn spec_stream_id_from_socket_path(path: Seq<char>) -> Option<usize> {
    match spec_file_name(path) {
        Some(name) => match strip_suffix(name, socket_suffix()) {
            Some(stem) => match rsplit_once(stem, '_') {
                Some((_context, ident)) => spec_parse_usize(ident),
                None => None,
            },
            None => None,
        },
        None => None,
    }
}

/// The stream id of a directory entry's file name when it names a publisher
/// socket of this application, `None` otherwise.
pub open spec fn spec_extract_socket_name_info(file_name: Seq<char>) -> Option<usize> {
    match strip_suffix(file_name, socket_suffix()) {
        Some(stem) => match rsplit_once(stem, '_') {
            Some((context, ident)) => if context == application_name() {
                spec_parse_usize(ident)
            } else {
                None
            },
            None => None,
        },
        None => None,
    }
}

/// Start and end of the file name of `path[..end]`, per `spec_file_name`.
fn file_name_range(path: &Vec<char>, end: usize) -> (r: Option<(usize, usize)>)
    requires
        end <= path.len(),
    ensures
        match r {
            Some((a, b)) => a <= b <= end && spec_file_name(path@.take(end as int)) == Some(
                path@.subrange(a as int, b as int),
            ),
            None => spec_file_name(path@.take(end as int)) is None,
        },
    decreases end,
{
    let ghost p = path@.take(end as int);
    let found = find_last(path, end, '/');
    proof {
        lemma_last_index_of(p, '/');
    }
    let start = match found {
        Some(i) => i + 1,
        None => 0,
    };
    let len = end - start;
    assert(p.skip(last_index_of(p, '/') + 1) == path@.subrange(start as int, end as int));
    let is_dot = len == 1 && path[start] == '.';
    let is_dot_dot = len == 2 && path[start] == '.' && path[start + 1] == '.';
    proof {
        let seg = path@.subrange(start as int, end as int);
        if len == 1 {
            assert(is_dot == (seg =~= seq!['.']));
        } else {
            assert(seg.len() != 1);
        }
        if len == 2 {
            assert(is_dot_dot == (seg =~= seq!['.', '.']));
        } else {
            assert(seg.len() != 2);
        }
    }
    if len == 0 || is_dot {
        match found {
            Some(i) => {
                assert(p.take(i as int) == path@.take(i as int));
                file_name_range(path, i)
            },
            None => None,
        }
    } else if is_dot_dot {
        None
    } else {
        Some((start, end))
    }
}

/// Start and end of the stream id digits of `s[a..b]` once `.sock` is
/// stripped: the text after the last `_`. Also gives the position of that
/// `_`.
fn socket_ident_range(s: &Vec<char>, a: usize, b: usize) -> (r: Option<(usize, usize)>)
    requires
        a <= b <= s.len(),
    ensures
        match r {
            Some((u, e)) => a <= u < e <= b && match strip_suffix(
                s@.subrange(a as int, b as int),
                socket_suffix(),
            ) {
                Some(stem) => rsplit_once(stem, '_') == Some(
                    (s@.subrange(a as int, u as int), s@.subrange(u + 1, e as int)),
                ),
                None => false,
            },
            None => match strip_suffix(s@.subrange(a as int, b as int), socket_suffix()) {
                Some(stem) => rsplit_once(stem, '_') is None,
                None => true,
            },
        },
{
    let ghost name = s@.subrange(a as int, b as int);
    let suffix: [char; 5] = ['.', 's', 'o', 'c', 'k'];
    if b - a < 5 {
        return None;
    }
    let e = b - 5;
    let has_suffix = range_equals(s, e, b, &suffix);
    assert(suffix@ =~= socket_suffix());
    assert(name.skip(name.len() - 5) == s@.subrange(e as int, b as int));
    if !has_suffix {
        return None;
    }
    let ghost stem = name.take(name.len() - 5);
    assert(stem == s@.subrange(a as int, e as int));
    assert(ends_with(name, socket_suffix()));
    // Search only within the stem.
    let mut i = e;
    while i > a
        invariant
            a <= i <= e,
            e + 5 == b <= s.len(),
            name == s@.subrange(a as int, b as int),
            ends_with(name, socket_suffix()),
            stem == name.take(name.len() - 5),
            stem == s@.subrange(a as int, e as int),
            last_index_of(stem, '_') == last_index_of(s@.subrange(a as int, i as int), '_'),
        decreases i,
    {
        if s[i - 1] == '_' {
            proof {
                lemma_last_index_of(stem, '_');
                assert(s@.subrange(a as int, i as int).last() == '_');
                assert(last_index_of(stem, '_') == i - 1 - a);
                assert(ends_with(name, socket_suffix()));
                assert(strip_suffix(name, socket_suffix()) == Some(stem));
                assert(stem.take(i - 1 - a) == s@.subrange(a as int, i - 1));
                assert(stem.skip(i - a) == s@.subrange(i as int, e as int));
            }
            return Some((i - 1, e));
        }
        assert(s@.subrange(a as int, i as int).drop_last() == s@.subrange(a as int, i - 1));
        i = i - 1;
    }
    None
}

/// The stream id of a publisher socket path: the number after the last `_`
/// of its file name, with `.sock` stripped.
pub fn stream_id_from_socket_path(path: &str) -> (r: Option<usize>)
    ensures
        r == spec_stream_id_from_socket_path(path@),
{
    let chars = chars_of(path);
    assert(chars@.take(chars.len() as int) == path@);
    match file_name_range(&chars, chars.len()) {
        Some((a, b)) => match socket_ident_range(&chars, a, b) {
            Some((u, e)) => parse_usize_range(&chars, u + 1, e),
            None => None,
        },
        None => None,
    }
}

/// The stream id named by a directory entry's file name, if the entry is a
/// publisher socket of this application.
pub fn extract_socket_name_info(file_name: &str) -> (r: Option<usize>)
    ensures
        r == spec_extract_socket_name_info(file_name@),
{
    let chars = chars_of(file_name);
    let app: [char; 14] = ['n', 'y', 'p', 'a', '_', 'd', 'b', '_', 's', 'e', 'r', 'v', 'e', 'r'];
    assert(chars@.subrange(0, chars.len() as int) == file_name@);
    match socket_ident_range(&chars, 0, chars.len()) {
        Some((u, e)) => {
            assert(app@ =~= application_name());
            if range_equals(&chars, 0, u, &app) {
                parse_usize_range(&chars, u + 1, e)
            } else {
                None
            }
        },
        None => None,
    }
}

/// A path found by directory discovery names the same stream when its
/// stream id is read back from the path: whenever a path's file name is a
/// publisher socket name, the id read from the path is the id of the name.
pub proof fn lemma_path_id_agrees_with_name_id(path: Seq<char>)
    requires
        spec_file_name(path) matches Some(name) && spec_extract_socket_name_info(name) is Some,
    ensures
        spec_stream_id_from_socket_path(path) == spec_extract_socket_name_info(
            spec_file_name(path).unwrap(),
        ),
{
}

/// Directory entries `names[i]` that are publisher sockets, as the indices
/// `i` ordered by stream id; entries with equal ids keep their order.
pub open spec fn socket_order_correct(names: Seq<Seq<char>>, order: Seq<usize>) -> bool {
    &&& forall|k: int|
        0 <= k < order.len() ==> (#[trigger] order[k] as int) < names.len()
            && spec_extract_socket_name_info(names[order[k] as int]) is Some
    &&& forall|i: int|
        0 <= i < names.len() && (#[trigger] spec_extract_socket_name_info(names[i])) is Some
            ==> order.contains(i as usize)
    &&& forall|k: int, l: int|
        0 <= k < l < order.len() ==> socket_key_before(
            names,
            #[trigger] order[k],
            #[trigger] order[l],
        )
}

/// Entry `i` comes strictly before entry `j`: a smaller stream id, or the
/// same id and an earlier entry.
pub open spec fn socket_key_before(names: Seq<Seq<char>>, i: usize, j: usize) -> bool {
    let a = spec_extract_socket_name_info(names[i as int]).unwrap();
    let b = spec_extract_socket_name_info(names[j as int]).unwrap();
    a < b || (a == b && i < j)
}

/// The views of a list of names.
pub open spec fn names_view(names: Seq<String>) -> Seq<Seq<char>> {
    names.map_values(|s: String| s@)
}

/// The order in which directory entries are used as publisher sockets: the
/// indices of the entries whose names are publisher socket names, sorted by
/// stream id, entries with equal ids in directory order.
pub fn publisher_socket_order(names: &Vec<String>) -> (order: Vec<usize>)
    ensures
        socket_order_correct(names_view(names@), order@),
{
    let ghost nv = names_view(names@);
    // Sorted pairs (stream id, entry index).
    let mut sorted: Vec<(usize, usize)> = Vec::new();
    let mut i: usize = 0;
    while i < names.len()
        invariant
            i <= names.len(),
            nv == names_view(names@),
            nv.len() == names.len(),
            forall|k: int|
                0 <= k < sorted.len() ==> (#[trigger] sorted@[k]).1 < i
                    && spec_extract_socket_name_info(nv[sorted@[k].1 as int]) == Some(
                    sorted@[k].0,
                ),
            forall|j: int|
                0 <= j < i && (#[trigger] spec_extract_socket_name_info(nv[j])) is Some
                    ==> exists|k: int| 0 <= k < sorted.len() && sorted@[k].1 == j,
            forall|k: int, l: int|
                0 <= k < l < sorted.len() ==> (#[trigger] sorted@[k]).0 < (#[trigger] sorted@[l]).0
                    || (sorted@[k].0 == sorted@[l].0 && sorted@[k].1 < sorted@[l].1),
        decreases names.len() - i,
    {
        assert(nv[i as int] == names@[i as int]@);
        let id = extract_socket_name_info(names[i].as_str());
        if let Some(id) = id {
            // Insert after every entry whose id is at most `id`.
            let mut pos = sorted.len();
            while pos > 0 && sorted[pos - 1].0 > id
                invariant
                    pos <= sorted.len(),
                    forall|k: int| pos <= k < sorted.len() ==> (#[trigger] sorted@[k]).0 > id,
                decreases pos,
            {
                pos = pos - 1;
            }
            let ghost old_sorted = sorted@;
            sorted.insert(pos, (id, i));
            proof {
                assert forall|k: int, l: int|
                    0 <= k < l < sorted.len() implies (#[trigger] sorted@[k]).0 < (
                    #[trigger] sorted@[l]).0 || (sorted@[k].0 == sorted@[l].0 && sorted@[k].1
                    < sorted@[l].1) by {
                    if k < pos && l > pos {
                        assert(sorted@[k] == old_sorted[k]);
                        assert(sorted@[l] == old_sorted[l - 1]);
                        if pos > 0 {
                            assert(old_sorted[pos - 1].0 <= id);
                        }
                    } else if k < pos && l == pos {
                    } else if k == pos && l > pos {
                        assert(sorted@[l] == old_sorted[l - 1]);
                    } else if l < pos {
                        assert(sorted@[k] == old_sorted[k]);
                        assert(sorted@[l] == old_sorted[l]);
                    } else {
                        assert(sorted@[k] == old_sorted[k - 1]);
                        assert(sorted@[l] == old_sorted[l - 1]);
                    }
                }
                assert forall|j: int|
                    0 <= j < i + 1 && (#[trigger] spec_extract_socket_name_info(
                        nv[j],
                    )) is Some implies exists|k: int|
                    0 <= k < sorted.len() && sorted@[k].1 == j by {
                    if j == i {
                        assert(sorted@[pos as int].1 == j);
                    } else {
                        let k = choose|k: int| 0 <= k < old_sorted.len() && old_sorted[k].1 == j;
                        if k < pos {
                            assert(sorted@[k] == old_sorted[k]);
                        } else {
                            assert(sorted@[k + 1] == old_sorted[k]);
                        }
                    }
                }
            }
        }
        i = i + 1;
    }
    let mut order: Vec<usize> = Vec::new();
    let mut k: usize = 0;
    while k < sorted.len()
        invariant
            k <= sorted.len(),
            order.len() == k,
            forall|m: int| 0 <= m < k ==> order@[m] == (#[trigger] sorted@[m]).1,
        decreases sorted.len() - k,
    {
        order.push(sorted[k].1);
        k = k + 1;
    }
    proof {
        assert forall|m: int| 0 <= m < order.len() implies (#[trigger] order@[m] as int) < nv.len()
            && spec_extract_socket_name_info(nv[order@[m] as int]) is Some by {
            assert(sorted@[m].1 == order@[m]);
        }
        assert forall|m: int, l: int|
            0 <= m < l < order.len() implies socket_key_before(
            nv,
            #[trigger] order@[m],
            #[trigger] order@[l],
        ) by {
            assert(sorted@[m].1 == order@[m]);
            assert(sorted@[l].1 == order@[l]);
        }
        assert forall|j: int|
            0 <= j < nv.len() && (#[trigger] spec_extract_socket_name_info(
                nv[j],
            )) is Some implies order@.contains(j as usize) by {
            let m = choose|m: int| 0 <= m < sorted.len() && sorted@[m].1 == j;
            assert(order@[m] == j);
        }
    }
    order
}

} // verus!
