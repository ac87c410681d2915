//! Paths as bytes, with slashes between their parts.

use crate::terminal;
use crate::text::copied_bytes;
use vstd::prelude::*;

verus! {

/// The byte between the parts of a path.
pub const SLASH: u8 = 0x2f;

/// The byte of the current directory.
pub const DOT: u8 = 0x2e;

/// Where the name that starts at `i` ends.
pub open spec fn name_end(path: Seq<u8>, i: int) -> int
    decreases path.len() - i,
{
    if i < 0 || i >= path.len() || path[i] == SLASH {
        i
    } else {
        name_end(path, i + 1)
    }
}

proof fn lemma_name_end(path: Seq<u8>, i: int)
    requires
        0 <= i <= path.len(),
    ensures
        i <= name_end(path, i) <= path.len(),
        i < path.len() && path[i] != SLASH ==> i < name_end(path, i),
    decreases path.len() - i,
{
    if i < path.len() && path[i] != SLASH {
        lemma_name_end(path, i + 1);
    }
}

/// The places of the names in a path from `i` on. Empty names and single dots do not count.
pub open spec fn names_from(path: Seq<u8>, i: int) -> Seq<(int, int)>
    decreases path.len() - i,
{
    if i < 0 || i >= path.len() {
        Seq::empty()
    } else if path[i] == SLASH {
        names_from(path, i + 1)
    } else {
        let end = name_end(path, i);
        if i < end <= path.len() {
            let rest = names_from(path, end);
            if end == i + 1 && path[i] == DOT {
                rest
            } else {
                seq![(i, end)] + rest
            }
        } else {
            Seq::empty()
        }
    }
}

/// The path starts with the root, or with a dot for the current directory.
pub open spec fn has_start(path: Seq<u8>) -> bool {
    ||| path.len() > 0 && path[0] == SLASH
    ||| path.len() > 0 && path[0] == DOT && (path.len() == 1 || path[1] == SLASH)
}

/// The places of the parts of a path: the root or a dot at its start, and the names.
pub open spec fn parts(path: Seq<u8>) -> Seq<(int, int)> {
    if has_start(path) {
        seq![(0int, 1int)] + names_from(path, 1)
    } else {
        names_from(path, 0)
    }
}

/// The text of a part.
pub open spec fn part_text(path: Seq<u8>, part: (int, int)) -> Seq<u8> {
    path.subrange(part.0, part.1)
}

/// The parts of `base` are the first parts of `path`.
pub open spec fn is_below(path: Seq<u8>, base: Seq<u8>) -> bool {
    &&& parts(base).len() <= parts(path).len()
    &&& forall|i: int|
        0 <= i < parts(base).len() ==> #[trigger] part_text(path, parts(path)[i]) == part_text(
            base,
            parts(base)[i],
        )
}

/// What is left of `path` without the parts of `base`, if those are its first parts.
pub open spec fn stripped(path: Seq<u8>, base: Seq<u8>) -> Option<Seq<u8>> {
    if is_below(path, base) {
        let n = parts(base).len() as int;
        if n == parts(path).len() {
            Some(Seq::empty())
        } else {
            Some(path.subrange(parts(path)[n].0, parts(path).last().1))
        }
    } else {
        None
    }
}

/// Places as mathematical integers.
pub open spec fn places(list: Seq<(usize, usize)>) -> Seq<(int, int)> {
    Seq::new(list.len(), |i: int| (list[i].0 as int, list[i].1 as int))
}

/// Every part lies in the path, and the parts lie in order.
pub open spec fn in_order(path: Seq<u8>, list: Seq<(int, int)>) -> bool {
    &&& forall|i: int| 0 <= i < list.len() ==> 0 <= (#[trigger] list[i]).0 <= list[i].1 <= path.len()
    &&& forall|i: int, j: int|
        0 <= i < j < list.len() ==> (#[trigger] list[i]).1 <= (#[trigger] list[j]).0
}

fn part_list(path: &[u8]) -> (r: Vec<(usize, usize)>)
    ensures
        places(r@) == parts(path@),
        in_order(path@, places(r@)),
{
    let mut r: Vec<(usize, usize)> = Vec::new();
    let mut i: usize = 0;
    if path.len() > 0 && (path[0] == SLASH || (path[0] == DOT && (path.len() == 1 || path[1]
        == SLASH))) {
        r.push((0, 1));
        i = 1;
    }
    assert(places(r@) + names_from(path@, i as int) == parts(path@));
    while i < path.len()
        invariant
            i <= path@.len(),
            places(r@) + names_from(path@, i as int) == parts(path@),
            in_order(path@, places(r@)),
            forall|k: int| 0 <= k < r@.len() ==> (#[trigger] r@[k]).1 <= i,
        decreases path@.len() - i,
    {
        if path[i] == SLASH {
            i += 1;
        } else {
            let mut end: usize = i;
            while end < path.len() && path[end] != SLASH
                invariant
                    i <= end <= path@.len(),
                    name_end(path@, i as int) == name_end(path@, end as int),
                decreases path@.len() - end,
            {
                end += 1;
            }
            proof {
                lemma_name_end(path@, i as int);
            }
            let ghost before = places(r@);
            if !(end == i + 1 && path[i] == DOT) {
                r.push((i, end));
                assert(places(r@) == before.push((i as int, end as int)));
            }
            assert(places(r@) + names_from(path@, end as int) == before + names_from(
                path@,
                i as int,
            ));
            i = end;
        }
    }
    assert(places(r@) + Seq::<(int, int)>::empty() == places(r@));
    r
}

fn same_part(path: &[u8], part: (usize, usize), base: &[u8], other: (usize, usize)) -> (r: bool)
    requires
        part.0 <= part.1 <= path@.len(),
        other.0 <= other.1 <= base@.len(),
    ensures
        r == (part_text(path@, (part.0 as int, part.1 as int)) == part_text(
            base@,
            (other.0 as int, other.1 as int),
        )),
{
    let ghost mine = part_text(path@, (part.0 as int, part.1 as int));
    let ghost theirs = part_text(base@, (other.0 as int, other.1 as int));
    let length = part.1 - part.0;
    if length != other.1 - other.0 {
        assert(mine.len() != theirs.len());
        return false;
    }
    for i in 0..length
        invariant
            part.0 + length == part.1 <= path@.len(),
            other.0 + length == other.1 <= base@.len(),
            mine == part_text(path@, (part.0 as int, part.1 as int)),
            theirs == part_text(base@, (other.0 as int, other.1 as int)),
            forall|k: int| 0 <= k < i ==> mine[k] == theirs[k],
    {
        if path[part.0 + i] != base[other.0 + i] {
            assert(mine[i as int] != theirs[i as int]);
            return false;
        }
    }
    assert(mine =~= theirs);
    true
}

/// What is left of `path` without the parts of `base`, if those are its first parts.
pub fn strip_prefix(path: &[u8], base: &[u8]) -> (r: Option<Vec<u8>>)
    ensures
        terminal::bytes_of(r) == stripped(path@, base@),
{
    let own_parts = part_list(path);
    let base_parts = part_list(base);
    let ghost mine = parts(path@);
    let ghost theirs = parts(base@);
    if base_parts.len() > own_parts.len() {
        return None;
    }
    for i in 0..base_parts.len()
        invariant
            mine == parts(path@),
            theirs == parts(base@),
            places(own_parts@) == mine,
            places(base_parts@) == theirs,
            in_order(path@, mine),
            in_order(base@, theirs),
            theirs.len() <= mine.len(),
            forall|k: int|
                0 <= k < i ==> #[trigger] part_text(path@, mine[k]) == part_text(base@, theirs[k]),
    {
        assert(mine[i as int] == (own_parts@[i as int].0 as int, own_parts@[i as int].1 as int));
        assert(theirs[i as int] == (
            base_parts@[i as int].0 as int,
            base_parts@[i as int].1 as int,
        ));
        if !same_part(path, own_parts[i], base, base_parts[i]) {
            assert(part_text(path@, mine[i as int]) != part_text(base@, theirs[i as int]));
            return None;
        }
    }
    let n = base_parts.len();
    if n == own_parts.len() {
        return Some(Vec::new());
    }
    let last = own_parts.len() - 1;
    assert(mine[n as int] == (own_parts@[n as int].0 as int, own_parts@[n as int].1 as int));
    assert(mine[last as int] == (
        own_parts@[last as int].0 as int,
        own_parts@[last as int].1 as int,
    ));
    assert(own_parts@[n as int].0 <= own_parts@[last as int].1);
    Some(copied_bytes(path, own_parts[n].0, own_parts[last].1))
}

} // verus!
