//! How directories below the home directory are shown.

use crate::paths;
use crate::paths::{DOT, SLASH};
use crate::session;
use crate::text;
use vstd::prelude::*;

verus! {

/// Places moved by an offset.
spec fn moved(list: Seq<(int, int)>, by: int) -> Seq<(int, int)> {
    Seq::new(list.len(), |i: int| (list[i].0 + by, list[i].1 + by))
}

proof fn lemma_name_end(path: Seq<u8>, i: int)
    requires
        0 <= i <= path.len(),
    ensures
        i <= paths::name_end(path, i) <= path.len(),
        i < path.len() && path[i] != SLASH ==> i < paths::name_end(path, i),
        paths::name_end(path, i) < path.len() ==> path[paths::name_end(path, i)] == SLASH,
    decreases path.len() - i,
{
    if i < path.len() && path[i] != SLASH {
        lemma_name_end(path, i + 1);
    }
}

proof fn lemma_end_in_front(path: Seq<u8>, rest: Seq<u8>, i: int)
    requires
        0 <= i <= path.len(),
    ensures
        paths::name_end(path.push(SLASH) + rest, i) == paths::name_end(path, i),
    decreases path.len() - i,
{
    let all = path.push(SLASH) + rest;
    if i < path.len() {
        assert(all[i] == path[i]);
        if path[i] != SLASH {
            lemma_end_in_front(path, rest, i + 1);
        }
    } else {
        assert(all[i] == SLASH);
    }
}

proof fn lemma_end_behind(front: Seq<u8>, rest: Seq<u8>, i: int)
    requires
        0 <= i <= rest.len(),
    ensures
        paths::name_end(front + rest, front.len() + i) == front.len() + paths::name_end(rest, i),
    decreases rest.len() - i,
{
    let all = front + rest;
    if i < rest.len() {
        assert(all[front.len() + i] == rest[i]);
        if rest[i] != SLASH {
            lemma_end_behind(front, rest, i + 1);
        }
    }
}

proof fn lemma_names_behind(front: Seq<u8>, rest: Seq<u8>, i: int)
    requires
        0 <= i <= rest.len(),
    ensures
        paths::names_from(front + rest, front.len() + i) == moved(
            paths::names_from(rest, i),
            front.len() as int,
        ),
    decreases rest.len() - i,
{
    let all = front + rest;
    let by = front.len() as int;
    let there = paths::names_from(all, front.len() + i);
    let here = paths::names_from(rest, i);
    if i < rest.len() {
        assert(all[front.len() + i] == rest[i]);
        if rest[i] == SLASH {
            lemma_names_behind(front, rest, i + 1);
        } else {
            lemma_name_end(rest, i);
            lemma_end_behind(front, rest, i);
            let end = paths::name_end(rest, i);
            lemma_names_behind(front, rest, end);
            assert(there =~= moved(here, by));
        }
    } else {
        assert(there =~= moved(here, by));
    }
}

proof fn lemma_names_in_front(path: Seq<u8>, rest: Seq<u8>, i: int)
    requires
        0 <= i <= path.len(),
    ensures
        paths::names_from(path.push(SLASH) + rest, i) == paths::names_from(path, i) + moved(
            paths::names_from(rest, 0),
            path.len() as int + 1,
        ),
    decreases path.len() - i,
{
    let all = path.push(SLASH) + rest;
    let tail = moved(paths::names_from(rest, 0), path.len() as int + 1);
    if i == path.len() {
        assert(all[i] == SLASH);
        lemma_names_behind(path.push(SLASH), rest, 0);
        assert(paths::names_from(path, i) + tail =~= tail);
    } else {
        assert(all[i] == path[i]);
        if path[i] == SLASH {
            lemma_names_in_front(path, rest, i + 1);
        } else {
            lemma_name_end(path, i);
            lemma_end_in_front(path, rest, i);
            let end = paths::name_end(path, i);
            lemma_names_in_front(path, rest, end);
            assert(paths::names_from(all, i) =~= paths::names_from(path, i) + tail);
        }
    }
}

proof fn lemma_names_lie_inside(path: Seq<u8>, i: int)
    requires
        0 <= i <= path.len(),
    ensures
        forall|k: int|
            0 <= k < paths::names_from(path, i).len() ==> i <= (#[trigger] paths::names_from(
                path,
                i,
            )[k]).0 <= paths::names_from(path, i)[k].1 <= path.len(),
    decreases path.len() - i,
{
    if i < path.len() {
        if path[i] == SLASH {
            lemma_names_lie_inside(path, i + 1);
            let rest = paths::names_from(path, i + 1);
            assert(paths::names_from(path, i) == rest);
            assert forall|k: int| 0 <= k < rest.len() implies i <= (#[trigger] rest[k]).0
                <= rest[k].1 <= path.len() by {}
        } else {
            lemma_name_end(path, i);
            let end = paths::name_end(path, i);
            lemma_names_lie_inside(path, end);
            let rest = paths::names_from(path, end);
            let all = paths::names_from(path, i);
            assert forall|k: int| 0 <= k < all.len() implies i <= (#[trigger] all[k]).0
                <= all[k].1 <= path.len() by {
                if all.len() == rest.len() {
                    assert(all[k] == rest[k]);
                } else if k > 0 {
                    assert(all[k] == rest[k - 1]);
                }
            }
        }
    }
}

/// The path neither starts nor ends with a slash or with a lone dot.
pub open spec fn is_inner(path: Seq<u8>) -> bool {
    &&& path.len() > 0
    &&& path[0] != SLASH
    &&& path.last() != SLASH
    &&& !(path[0] == DOT && (path.len() == 1 || path[1] == SLASH))
    &&& !(path.last() == DOT && (path.len() == 1 || path[path.len() - 2] == SLASH))
}

proof fn lemma_last_name(path: Seq<u8>, i: int)
    requires
        is_inner(path),
        0 <= i < path.len(),
        i == 0 || path[i - 1] == SLASH || path[i] == SLASH,
    ensures
        paths::names_from(path, i).len() > 0,
        paths::names_from(path, i).last().1 == path.len(),
    decreases path.len() - i,
{
    if path[i] == SLASH {
        lemma_last_name(path, i + 1);
    } else {
        lemma_name_end(path, i);
        let end = paths::name_end(path, i);
        if end < path.len() {
            lemma_last_name(path, end);
            let rest = paths::names_from(path, end);
            let all = paths::names_from(path, i);
            assert(all.last() == rest.last());
        } else {
            assert(paths::names_from(path, end) =~= Seq::empty());
            assert(paths::names_from(path, i) =~= seq![(i, end)]);
        }
    }
}

/// What lies below a directory is found again: the path without the directory and the slash behind
/// it.
pub proof fn paths_below_a_directory_are_found(directory: Seq<u8>, rest: Seq<u8>)
    requires
        directory.len() > 0,
        directory[0] == SLASH,
        is_inner(rest),
    ensures
        paths::stripped(directory.push(SLASH) + rest, directory) == Some(rest),
        paths::stripped(directory, directory) == Some(Seq::<u8>::empty()),
{
    let path = directory.push(SLASH) + rest;
    let by = directory.len() as int + 1;
    let own = paths::parts(directory);
    let names = paths::names_from(rest, 0);
    assert(path[0] == SLASH);
    lemma_names_in_front(directory, rest, 1);
    lemma_names_lie_inside(directory, 1);
    assert(paths::parts(path) =~= own + moved(names, by));
    assert forall|i: int| 0 <= i < own.len() implies #[trigger] paths::part_text(
        path,
        paths::parts(path)[i],
    ) == paths::part_text(directory, own[i]) by {
        assert(paths::parts(path)[i] == own[i]);
        if i > 0 {
            assert(own[i] == paths::names_from(directory, 1)[i - 1]);
        }
        assert(0 <= own[i].0 <= own[i].1 <= directory.len());
        assert(path.subrange(own[i].0, own[i].1) =~= directory.subrange(own[i].0, own[i].1));
    }
    lemma_name_end(rest, 0);
    lemma_last_name(rest, 0);
    assert(names[0].0 == 0) by {
        let end = paths::name_end(rest, 0);
        assert(end > 0);
        if end == 1 {
            assert(rest.len() == 1 || rest[1] == SLASH);
        }
    }
    assert(paths::parts(path)[own.len() as int] == moved(names, by)[0]);
    assert(paths::parts(path).last() == moved(names, by).last());
    assert(path.subrange(by, path.len() as int) =~= rest);
}

/// The home directory is shown as a tilde, and a directory below it with a tilde in its place.
pub proof fn the_home_directory_is_shown_as_a_tilde(home: Seq<u8>, rest: Seq<u8>)
    requires
        home.len() > 0,
        home[0] == SLASH,
        is_inner(rest),
    ensures
        session::directory_text(home, Some(home)) == "~"@,
        session::directory_text(home.push(SLASH) + rest, Some(home)) == "~/"@ + text::shown(rest),
{
    paths_below_a_directory_are_found(home, rest);
}

/// A directory that differs in one of its parts from the home directory is shown as it is, and so
/// is every directory where the home directory is not known.
pub proof fn other_directories_are_shown_as_they_are(cwd: Seq<u8>, home: Seq<u8>)
    ensures
        session::directory_text(cwd, None) == text::shown(cwd),
        paths::parts(home).len() > paths::parts(cwd).len() ==> session::directory_text(
            cwd,
            Some(home),
        ) == text::shown(cwd),
        forall|i: int|
            0 <= i < paths::parts(home).len() && i < paths::parts(cwd).len()
                && #[trigger] paths::part_text(cwd, paths::parts(cwd)[i]) != paths::part_text(
                home,
                paths::parts(home)[i],
            ) ==> session::directory_text(cwd, Some(home)) == text::shown(cwd),
{
}

} // verus!
