//! The layout of a group shows the members of the group, each of them once.

use crate::app;
use crate::app::{AppView, InputModeView, MenuAction};
use crate::event_laws;
use crate::events::{KeyCode, KeyEvent, MouseButton, MouseEvent, MouseEventKind};
use crate::geometry::Rect;
use crate::groups;
use crate::input;
use crate::layout;
use crate::layout::{PaneLayout, SplitAxis};
use crate::layout_laws;
use crate::menu;
use crate::mouse;
use crate::session;
use crate::session::SessionView;
use crate::workspace;
use crate::workspace::StartedView;
use crate::workspace_laws;
use vstd::prelude::*;

verus! {

/// A session with the given id is in the group.
pub open spec fn is_member(sessions: Seq<SessionView>, id: u64, group: u64) -> bool {
    exists|i: int|
        0 <= i < sessions.len() && (#[trigger] sessions[i]).id == id && sessions[i].group == Some(
            group,
        )
}

/// The layout has one leaf for each member of the group, and no others.
pub open spec fn shows_members(
    layout: PaneLayout,
    sessions: Seq<SessionView>,
    group: u64,
) -> bool {
    &&& layout::leaves(layout).no_duplicates()
    &&& forall|id: u64| #[trigger]
        layout::leaves(layout).contains(id) <==> is_member(sessions, id, group)
}

/// Every layout shows the members of its group.
pub open spec fn layouts_match(
    layouts: Map<u64, PaneLayout>,
    sessions: Seq<SessionView>,
) -> bool {
    forall|group: u64| #[trigger]
        layouts.contains_key(group) ==> shows_members(layouts[group], sessions, group)
}

/// The numbers of the groups are below those that will be given to new ones.
pub open spec fn groups_are_fresh(app: AppView) -> bool {
    &&& forall|i: int|
        0 <= i < app.sessions.len() ==> ((#[trigger] app.sessions[i]).group matches Some(group)
            ==> group < app.next_group_id)
    &&& forall|group: u64| #[trigger]
        app.group_layouts.contains_key(group) ==> group < app.next_group_id
}

/// The ids and the numbers of the groups are fresh, and every layout shows the members of its
/// group.
pub open spec fn is_arranged(app: AppView) -> bool {
    &&& event_laws::ids_are_fresh(app.sessions, app.next_session_id)
    &&& groups_are_fresh(app)
    &&& layouts_match(app.group_layouts, app.sessions)
}

/// The ids differ from each other.
spec fn ids_differ(sessions: Seq<SessionView>) -> bool {
    forall|i: int, j: int|
        0 <= i < j < sessions.len() ==> (#[trigger] sessions[i]).id != (#[trigger] sessions[j]).id
}

proof fn lemma_filter_others(list: Seq<u64>, id: u64)
    requires
        list.no_duplicates(),
    ensures
        list.filter(layout_laws::other_than(id)).no_duplicates(),
        forall|x: u64| #[trigger]
            list.filter(layout_laws::other_than(id)).contains(x) <==> list.contains(x) && x != id,
    decreases list.len(),
{
    reveal(Seq::filter);
    let all = list.filter(layout_laws::other_than(id));
    if list.len() > 0 {
        let front = list.drop_last();
        let last = list.last();
        lemma_filter_others(front, id);
        let rest = front.filter(layout_laws::other_than(id));
        assert forall|x: u64| list.contains(x) <==> front.contains(x) || x == last by {
            if list.contains(x) {
                let i = choose|i: int| 0 <= i < list.len() && list[i] == x;
                if i < front.len() {
                    assert(front[i] == x);
                }
            }
            if front.contains(x) {
                let i = choose|i: int| 0 <= i < front.len() && front[i] == x;
                assert(list[i] == x);
            }
            assert(list[list.len() - 1] == last);
        }
        assert(!front.contains(last)) by {
            if front.contains(last) {
                let i = choose|i: int| 0 <= i < front.len() && front[i] == last;
                assert(list[i] == list[list.len() - 1]);
            }
        }
        if last != id {
            assert(all == rest.push(last));
            lemma_pushed(rest, last);
        } else {
            assert(all == rest);
        }
    }
}

proof fn lemma_pushed(list: Seq<u64>, last: u64)
    requires
        list.no_duplicates(),
        !list.contains(last),
    ensures
        list.push(last).no_duplicates(),
        forall|x: u64| #[trigger] list.push(last).contains(x) <==> list.contains(x) || x == last,
{
    let all = list.push(last);
    assert forall|x: u64| #[trigger] all.contains(x) <==> list.contains(x) || x == last by {
        if all.contains(x) {
            let i = choose|i: int| 0 <= i < all.len() && all[i] == x;
            if i < list.len() {
                assert(list[i] == x);
            }
        }
        if list.contains(x) {
            let i = choose|i: int| 0 <= i < list.len() && list[i] == x;
            assert(all[i] == x);
        }
        assert(all[list.len() as int] == last);
    }
    assert forall|i: int, j: int| 0 <= i < all.len() && 0 <= j < all.len() && i
        != j implies all[i] != all[j] by {
        if i < list.len() && j < list.len() {
            assert(list[i] != list[j]);
        } else if i < list.len() {
            assert(list.contains(list[i]));
        } else {
            assert(list.contains(list[j]));
        }
    }
}

proof fn lemma_inserted(list: Seq<u64>, place: int, new: u64)
    requires
        list.no_duplicates(),
        !list.contains(new),
        0 <= place <= list.len(),
    ensures
        list.insert(place, new).no_duplicates(),
        forall|x: u64| #[trigger]
            list.insert(place, new).contains(x) <==> list.contains(x) || x == new,
{
    let all = list.insert(place, new);
    assert forall|x: u64| #[trigger] all.contains(x) <==> list.contains(x) || x == new by {
        if all.contains(x) {
            let i = choose|i: int| 0 <= i < all.len() && all[i] == x;
            if i < place {
                assert(list[i] == x);
            } else if i > place {
                assert(list[i - 1] == x);
            }
        }
        if list.contains(x) {
            let i = choose|i: int| 0 <= i < list.len() && list[i] == x;
            assert(all[if i < place { i } else { i + 1 }] == x);
        }
        assert(all[place] == new);
    }
    assert forall|i: int, j: int| 0 <= i < all.len() && 0 <= j < all.len() && i
        != j implies all[i] != all[j] by {
        let a = if i < place { i } else { i - 1 };
        let b = if j < place { j } else { j - 1 };
        if i != place {
            assert(list.contains(list[a]));
        }
        if j != place {
            assert(list.contains(list[b]));
        }
        if i != place && j != place {
            assert(list[a] != list[b]);
        }
    }
}

proof fn lemma_members(sessions: Seq<SessionView>, group: u64)
    requires
        ids_differ(sessions),
    ensures
        layout::members(sessions, group).no_duplicates(),
        forall|id: u64| #[trigger]
            layout::members(sessions, group).contains(id) <==> is_member(sessions, id, group),
    decreases sessions.len(),
{
    let all = layout::members(sessions, group);
    if sessions.len() > 0 {
        let front = sessions.drop_last();
        let last = sessions.last();
        assert(ids_differ(front)) by {
            assert forall|i: int, j: int| 0 <= i < j < front.len() implies (#[trigger] front[i]).id
                != (#[trigger] front[j]).id by {
                assert(sessions[i].id != sessions[j].id);
            }
        }
        lemma_members(front, group);
        let rest = layout::members(front, group);
        assert forall|id: u64| is_member(sessions, id, group) <==> is_member(front, id, group) || (
        last.id == id && last.group == Some(group)) by {
            if is_member(sessions, id, group) {
                let i = choose|i: int|
                    0 <= i < sessions.len() && (#[trigger] sessions[i]).id == id
                        && sessions[i].group == Some(group);
                if i < front.len() {
                    assert(front[i] == sessions[i]);
                }
            }
            if is_member(front, id, group) {
                let i = choose|i: int|
                    0 <= i < front.len() && (#[trigger] front[i]).id == id && front[i].group
                        == Some(group);
                assert(sessions[i] == front[i]);
            }
            assert(sessions[sessions.len() - 1] == last);
        }
        if last.group == Some(group) {
            assert(!is_member(front, last.id, group)) by {
                if is_member(front, last.id, group) {
                    let i = choose|i: int|
                        0 <= i < front.len() && (#[trigger] front[i]).id == last.id
                            && front[i].group == Some(group);
                    assert(sessions[i].id != sessions[sessions.len() - 1].id);
                }
            }
            lemma_pushed(rest, last.id);
        }
    }
}

proof fn lemma_regrouped(
    sessions: Seq<SessionView>,
    index: int,
    new: Option<u64>,
    id: u64,
    group: u64,
)
    requires
        ids_differ(sessions),
        0 <= index < sessions.len(),
    ensures
        is_member(groups::regrouped(sessions, index, new), id, group) <==> (if id
            == sessions[index].id {
            new == Some(group)
        } else {
            is_member(sessions, id, group)
        }),
{
    let after = groups::regrouped(sessions, index, new);
    if is_member(after, id, group) {
        let i = choose|i: int|
            0 <= i < after.len() && (#[trigger] after[i]).id == id && after[i].group == Some(group);
        if i != index {
            assert(sessions[i] == after[i]);
            assert(sessions[i].id != sessions[index].id);
        }
    }
    if id == sessions[index].id {
        assert(after[index].id == id);
    } else if is_member(sessions, id, group) {
        let i = choose|i: int|
            0 <= i < sessions.len() && (#[trigger] sessions[i]).id == id && sessions[i].group
                == Some(group);
        assert(after[i] == sessions[i]);
    }
}

proof fn lemma_own_group(sessions: Seq<SessionView>, index: int, group: u64)
    requires
        ids_differ(sessions),
        0 <= index < sessions.len(),
    ensures
        is_member(sessions, sessions[index].id, group) <==> sessions[index].group == Some(group),
{
    assert(groups::regrouped(sessions, index, sessions[index].group) =~= sessions);
    lemma_regrouped(sessions, index, sessions[index].group, sessions[index].id, group);
}

proof fn lemma_removed(sessions: Seq<SessionView>, index: int, id: u64, group: u64)
    requires
        ids_differ(sessions),
        0 <= index < sessions.len(),
    ensures
        is_member(sessions.remove(index), id, group) <==> id != sessions[index].id && is_member(
            sessions,
            id,
            group,
        ),
{
    let after = sessions.remove(index);
    if is_member(after, id, group) {
        let i = choose|i: int|
            0 <= i < after.len() && (#[trigger] after[i]).id == id && after[i].group == Some(group);
        let j = if i < index { i } else { i + 1 };
        assert(sessions[j] == after[i]);
        assert(sessions[j].id != sessions[index].id);
    }
    if id != sessions[index].id && is_member(sessions, id, group) {
        let i = choose|i: int|
            0 <= i < sessions.len() && (#[trigger] sessions[i]).id == id && sessions[i].group
                == Some(group);
        assert(after[if i < index { i } else { i - 1 }] == sessions[i]);
    }
}

/// Without one session and its leaf, the layouts still match. `after` are the sessions in which
/// that session is gone or without a group.
proof fn lemma_leaf_dropped(app: AppView, index: int, after: Seq<SessionView>)
    requires
        ids_differ(app.sessions),
        layouts_match(app.group_layouts, app.sessions),
        0 <= index < app.sessions.len(),
        forall|id: u64, group: u64| #[trigger]
            is_member(after, id, group) <==> id != app.sessions[index].id && is_member(
                app.sessions,
                id,
                group,
            ),
    ensures
        layouts_match(
            groups::leaf_dropped(
                app.group_layouts,
                app.sessions[index].group,
                app.sessions[index].id,
            ),
            after,
        ),
{
    let own = app.sessions[index];
    let layouts = groups::leaf_dropped(app.group_layouts, own.group, own.id);
    assert forall|group: u64| #[trigger] layouts.contains_key(group) implies shows_members(
        layouts[group],
        after,
        group,
    ) by {
        assert(app.group_layouts.contains_key(group));
        assert(shows_members(app.group_layouts[group], app.sessions, group));
        lemma_own_group(app.sessions, index, group);
        let before = layout::leaves(app.group_layouts[group]);
        if own.group == Some(group) {
            layout_laws::removing_a_pane_keeps_the_others(app.group_layouts[group], own.id);
            lemma_filter_others(before, own.id);
            assert(layout::leaves(layouts[group]) == before.filter(
                layout_laws::other_than(own.id),
            ));
        } else {
            assert(layouts[group] == app.group_layouts[group]);
            assert(!before.contains(own.id));
        }
    }
}

proof fn lemma_kept(layouts: Map<u64, PaneLayout>, sessions: Seq<SessionView>)
    requires
        layouts_match(layouts, sessions),
    ensures
        layouts_match(groups::kept(layouts, sessions), sessions),
{
    let rest = groups::kept(layouts, sessions);
    assert forall|group: u64| #[trigger] rest.contains_key(group) implies shows_members(
        rest[group],
        sessions,
        group,
    ) by {
        assert(layouts.contains_key(group));
    }
}

/// Closing a tab keeps the groups arranged.
pub proof fn closing_keeps_groups_arranged(app: AppView, index: int)
    requires
        is_arranged(app),
        0 <= index < app.sessions.len(),
    ensures
        is_arranged(groups::closed(app, index)),
{
    if app.sessions.len() > 1 {
        let after = groups::closed(app, index);
        let rest = app.sessions.remove(index);
        assert forall|id: u64, group: u64| #[trigger]
            is_member(rest, id, group) <==> id != app.sessions[index].id && is_member(
                app.sessions,
                id,
                group,
            ) by {
            lemma_removed(app.sessions, index, id, group);
        }
        lemma_leaf_dropped(app, index, rest);
        lemma_kept(
            groups::leaf_dropped(
                app.group_layouts,
                app.sessions[index].group,
                app.sessions[index].id,
            ),
            rest,
        );
        assert(after.sessions == rest);
        assert forall|i: int| 0 <= i < rest.len() implies #[trigger] rest[i] == app.sessions[if i
            < index {
            i
        } else {
            i + 1
        }] by {}
        assert(event_laws::ids_are_fresh(rest, app.next_session_id));
        assert(groups_are_fresh(after)) by {
            assert forall|group: u64| #[trigger]
                after.group_layouts.contains_key(group) implies group < after.next_group_id by {
                assert(app.group_layouts.contains_key(group));
            }
        }
    }
}

/// The sessions have the same ids and groups.
spec fn same_members(a: Seq<SessionView>, b: Seq<SessionView>) -> bool {
    &&& a.len() == b.len()
    &&& forall|i: int|
        0 <= i < a.len() ==> (#[trigger] a[i]).id == b[i].id && a[i].group == b[i].group
}

proof fn lemma_same_members(a: Seq<SessionView>, b: Seq<SessionView>, id: u64, group: u64)
    requires
        same_members(a, b),
    ensures
        is_member(a, id, group) == is_member(b, id, group),
{
    if is_member(a, id, group) {
        let i = choose|i: int|
            0 <= i < a.len() && (#[trigger] a[i]).id == id && a[i].group == Some(group);
        assert(b[i].id == id);
    }
    if is_member(b, id, group) {
        let i = choose|i: int|
            0 <= i < b.len() && (#[trigger] b[i]).id == id && b[i].group == Some(group);
        assert(a[i].id == id);
    }
}

/// Where ids, groups and the panes of the layouts stay, the groups stay arranged.
proof fn lemma_same_is_arranged(app: AppView, after: AppView)
    requires
        is_arranged(app),
        same_members(after.sessions, app.sessions),
        after.next_session_id == app.next_session_id,
        after.next_group_id == app.next_group_id,
        forall|group: u64| #[trigger]
            after.group_layouts.contains_key(group) ==> app.group_layouts.contains_key(group)
                && layout::leaves(after.group_layouts[group]) == layout::leaves(
                app.group_layouts[group],
            ),
    ensures
        is_arranged(after),
{
    assert forall|i: int, j: int| 0 <= i < j < after.sessions.len() implies (
    #[trigger] after.sessions[i]).id != (#[trigger] after.sessions[j]).id by {
        assert(app.sessions[i].id != app.sessions[j].id);
    }
    assert forall|group: u64| #[trigger] after.group_layouts.contains_key(
        group,
    ) implies shows_members(after.group_layouts[group], after.sessions, group) by {
        assert(shows_members(app.group_layouts[group], app.sessions, group));
        assert forall|id: u64| #[trigger]
            layout::leaves(after.group_layouts[group]).contains(id) <==> is_member(
                after.sessions,
                id,
                group,
            ) by {
            lemma_same_members(after.sessions, app.sessions, id, group);
        }
    }
    assert forall|i: int| 0 <= i < after.sessions.len() implies ((
    #[trigger] after.sessions[i]).group matches Some(group) ==> group < after.next_group_id) by {
        assert(app.sessions[i].group == after.sessions[i].group);
    }
}

proof fn lemma_request_is_arranged(app: AppView, index: int, now: u64)
    requires
        is_arranged(app),
        0 <= index,
    ensures
        is_arranged(groups::close_requested(app, index, now)),
{
    if index < app.sessions.len() {
        let seen = AppView { sessions: groups::looked_at(app.sessions, index, now), ..app };
        lemma_same_is_arranged(app, seen);
        closing_keeps_groups_arranged(seen, index);
    }
}

/// A pane placed beside a member of a group becomes a member, and all layouts show their members.
#[verifier::rlimit(40)]
proof fn lemma_placed_is_arranged(
    app: AppView,
    group: u64,
    target: u64,
    pane: u64,
    axis: SplitAxis,
)
    requires
        is_arranged(app),
        is_member(app.sessions, target, group),
    ensures
        is_arranged(groups::placed(app, group, target, pane, axis)),
{
    session::lemma_position(app.sessions, pane, 0);
    if target != pane && session::position_of(app.sessions, pane) is Some {
        let index = session::position_of(app.sessions, pane)->0;
        let after = groups::placed(app, group, target, pane, axis);
        let others = groups::regrouped(app.sessions, index, None);
        let moved = groups::regrouped(app.sessions, index, Some(group));
        let layouts = groups::leaf_dropped(app.group_layouts, app.sessions[index].group, pane);
        assert forall|id: u64, other: u64| #[trigger]
            is_member(others, id, other) <==> id != pane && is_member(
                app.sessions,
                id,
                other,
            ) by {
            lemma_regrouped(app.sessions, index, None, id, other);
        }
        lemma_leaf_dropped(app, index, others);
        let apart = AppView { sessions: others, group_layouts: layouts, ..app };
        let base = app::layout_of(apart, group);
        assert(shows_members(base, others, group)) by {
            if layouts.contains_key(group) {
            } else {
                assert(ids_differ(others)) by {
                    assert forall|i: int, j: int| 0 <= i < j < others.len() implies (
                    #[trigger] others[i]).id != (#[trigger] others[j]).id by {
                        assert(app.sessions[i].id != app.sessions[j].id);
                    }
                }
                lemma_members(others, group);
                let ids = layout::members(others, group);
                assert(is_member(others, target, group));
                assert(ids.contains(target));
                layout_laws::balanced_layout_holds_all_panes(ids, SplitAxis::Horizontal);
            }
        }
        let leaves = layout::leaves(base);
        assert(leaves.contains(target));
        assert(!leaves.contains(pane));
        let placed = groups::beside(base, target, pane, axis);
        layout_laws::inserting_a_pane_puts_it_behind_its_target(base, target, pane, axis);
        layout_laws::lemma_first_place_add(leaves, Seq::empty(), target);
        assert(leaves + Seq::<u64>::empty() =~= leaves);
        lemma_inserted(leaves, layout_laws::first_place(leaves, target) + 1, pane);
        let all = layouts.insert(group, placed);
        assert(layouts_match(all, moved)) by {
            assert forall|other: u64| #[trigger] all.contains_key(other) implies shows_members(
                all[other],
                moved,
                other,
            ) by {
                assert forall|id: u64| #[trigger]
                    layout::leaves(all[other]).contains(id) <==> is_member(moved, id, other) by {
                    lemma_regrouped(app.sessions, index, Some(group), id, other);
                    if other == group {
                        assert(layout::leaves(placed).contains(id) <==> leaves.contains(id) || id
                            == pane);
                        assert(leaves.contains(id) <==> is_member(others, id, group));
                    } else {
                        assert(layouts.contains_key(other));
                        assert(shows_members(layouts[other], others, other));
                        assert(layout::leaves(layouts[other]).contains(id) <==> is_member(
                            others,
                            id,
                            other,
                        ));
                    }
                }
            }
        }
        lemma_kept(all, moved);
        assert(after.sessions == moved);
        assert forall|i: int| 0 <= i < moved.len() implies (#[trigger] moved[i]).id
            == app.sessions[i].id by {}
        assert(event_laws::ids_are_fresh(moved, app.next_session_id)) by {
            assert forall|i: int, j: int| 0 <= i < j < moved.len() implies (#[trigger] moved[i]).id
                != (#[trigger] moved[j]).id by {
                assert(app.sessions[i].id != app.sessions[j].id);
            }
        }
        assert(group < app.next_group_id) by {
            let i = choose|i: int|
                0 <= i < app.sessions.len() && (#[trigger] app.sessions[i]).id == target
                    && app.sessions[i].group == Some(group);
            assert(app.sessions[i].group == Some(group));
        }
        assert(groups_are_fresh(after)) by {
            assert forall|other: u64| #[trigger]
                after.group_layouts.contains_key(other) implies other < after.next_group_id by {
                if other != group {
                    assert(layouts.contains_key(other));
                    assert(app.group_layouts.contains_key(other));
                }
            }
        }
    }
}

/// A new group that holds only one session is arranged.
proof fn lemma_with_group_is_arranged(app: AppView, index: int)
    requires
        is_arranged(app),
        0 <= index < app.sessions.len(),
        app.sessions[index].group is None,
        app.next_group_id < u64::MAX,
    ensures
        is_arranged(groups::with_group(app, index)),
        is_member(groups::with_group(app, index).sessions, app.sessions[index].id, app.next_group_id),
{
    let after = groups::with_group(app, index);
    let new = app.next_group_id;
    assert forall|i: int, j: int| 0 <= i < j < after.sessions.len() implies (
    #[trigger] after.sessions[i]).id != (#[trigger] after.sessions[j]).id by {
        assert(app.sessions[i].id != app.sessions[j].id);
    }
    assert forall|group: u64| #[trigger] after.group_layouts.contains_key(
        group,
    ) implies shows_members(after.group_layouts[group], after.sessions, group) by {
        let leaves = layout::leaves(after.group_layouts[group]);
        assert forall|id: u64| #[trigger] leaves.contains(id) <==> is_member(
            after.sessions,
            id,
            group,
        ) by {
            lemma_regrouped(app.sessions, index, Some(new), id, group);
            lemma_own_group(app.sessions, index, group);
            if group == new {
                assert(leaves == seq![app.sessions[index].id]);
                assert(leaves[0] == app.sessions[index].id);
                assert(!is_member(app.sessions, id, new)) by {
                    if is_member(app.sessions, id, new) {
                        let i = choose|i: int|
                            0 <= i < app.sessions.len() && (#[trigger] app.sessions[i]).id == id
                                && app.sessions[i].group == Some(new);
                        assert(app.sessions[i].group == Some(new));
                    }
                }
            } else {
                assert(shows_members(app.group_layouts[group], app.sessions, group));
                assert(layout::leaves(app.group_layouts[group]).contains(id) <==> is_member(
                    app.sessions,
                    id,
                    group,
                ));
            }
        }
    }
    lemma_regrouped(app.sessions, index, Some(new), app.sessions[index].id, new);
    assert(groups_are_fresh(after)) by {
        assert forall|group: u64| #[trigger]
            after.group_layouts.contains_key(group) implies group < after.next_group_id by {
            if group != new {
                assert(app.group_layouts.contains_key(group));
            }
        }
        assert forall|i: int| 0 <= i < after.sessions.len() implies ((
        #[trigger] after.sessions[i]).group matches Some(group) ==> group
            < after.next_group_id) by {
            if i != index {
                assert(after.sessions[i] == app.sessions[i]);
            }
        }
    }
}

/// An entry of a menu fits the state of the workspace: a group is created only for a session without
/// one, and only groups in use are tiled.
pub open spec fn is_current(app: AppView, session_id: u64, action: MenuAction) -> bool {
    session::position_of(app.sessions, session_id) matches Some(index) ==> match action {
        MenuAction::CreateGroup => app.sessions[index].group is None,
        MenuAction::LayoutHorizontal(group) => groups::in_use(app.sessions, group),
        MenuAction::LayoutVertical(group) => groups::in_use(app.sessions, group),
        _ => true,
    }
}

/// The entries that a menu offers when it is opened fit the state of the workspace.
pub proof fn offered_entries_are_current(app: AppView, index: int, group: u64, i: int)
    requires
        event_laws::ids_are_fresh(app.sessions, app.next_session_id),
        0 <= index < app.sessions.len(),
    ensures
        0 <= i < menu::tab_entries(app, index).len() ==> is_current(
            app,
            app.sessions[index].id,
            menu::tab_entries(app, index)[i].1,
        ),
        groups::in_use(app.sessions, group) && 0 <= i < menu::group_entries(app, group).len()
            ==> is_current(
            app,
            app.sessions[index].id,
            menu::group_entries(app, group)[i].1,
        ),
{
    session::lemma_position(app.sessions, app.sessions[index].id, 0);
    if let Some(place) = session::position_of(app.sessions, app.sessions[index].id) {
        if place < index {
            assert(app.sessions[place].id != app.sessions[index].id);
        } else if index < place {
            assert(app.sessions[index].id != app.sessions[place].id);
        }
    }
}

proof fn lemma_tiled_is_arranged(app: AppView, group: u64, axis: SplitAxis)
    requires
        is_arranged(app),
        groups::in_use(app.sessions, group),
    ensures
        is_arranged(menu::tiled(app, group, axis)),
{
    let after = menu::tiled(app, group, axis);
    lemma_members(app.sessions, group);
    let ids = layout::members(app.sessions, group);
    let some = choose|i: int|
        0 <= i < app.sessions.len() && (#[trigger] app.sessions[i]).group == Some(group);
    assert(is_member(app.sessions, app.sessions[some].id, group));
    assert(ids.contains(app.sessions[some].id));
    layout_laws::balanced_layout_holds_all_panes(ids, axis);
    assert forall|other: u64| #[trigger] after.group_layouts.contains_key(
        other,
    ) implies shows_members(after.group_layouts[other], after.sessions, other) by {
        if other != group {
            assert(app.group_layouts.contains_key(other));
        }
    }
}

proof fn lemma_ungrouped(sessions: Seq<SessionView>, gone: u64, id: u64, group: u64)
    requires
        group != gone,
    ensures
        is_member(menu::ungrouped(sessions, gone), id, group) == is_member(sessions, id, group),
{
    let after = menu::ungrouped(sessions, gone);
    if is_member(after, id, group) {
        let i = choose|i: int|
            0 <= i < after.len() && (#[trigger] after[i]).id == id && after[i].group == Some(group);
        assert(sessions[i].id == id);
    }
    if is_member(sessions, id, group) {
        let i = choose|i: int|
            0 <= i < sessions.len() && (#[trigger] sessions[i]).id == id && sessions[i].group
                == Some(group);
        assert(after[i] == sessions[i]);
    }
}

proof fn lemma_ungroup_is_arranged(app: AppView, index: int, gone: u64)
    requires
        is_arranged(app),
    ensures
        is_arranged(menu::applied(app, index, MenuAction::Ungroup(gone), 0)),
{
    let after = menu::applied(app, index, MenuAction::Ungroup(gone), 0);
    assert forall|i: int, j: int| 0 <= i < j < after.sessions.len() implies (
    #[trigger] after.sessions[i]).id != (#[trigger] after.sessions[j]).id by {
        assert(app.sessions[i].id != app.sessions[j].id);
    }
    assert forall|i: int| 0 <= i < after.sessions.len() implies (#[trigger] after.sessions[i]).id
        < after.next_session_id && (after.sessions[i].group matches Some(group) ==> group
        < after.next_group_id) by {
        assert(app.sessions[i].id < app.next_session_id);
    }
    assert forall|group: u64| #[trigger] after.group_layouts.contains_key(
        group,
    ) implies shows_members(after.group_layouts[group], after.sessions, group) by {
        assert(app.group_layouts.contains_key(group));
        assert(shows_members(app.group_layouts[group], app.sessions, group));
        assert forall|id: u64| #[trigger]
            layout::leaves(after.group_layouts[group]).contains(id) <==> is_member(
                after.sessions,
                id,
                group,
            ) by {
            lemma_ungrouped(app.sessions, gone, id, group);
        }
    }
    assert(groups_are_fresh(after)) by {
        assert forall|group: u64| #[trigger]
            after.group_layouts.contains_key(group) implies group < after.next_group_id by {
            assert(app.group_layouts.contains_key(group));
        }
    }
}

proof fn lemma_leaving_is_arranged(app: AppView, index: int)
    requires
        is_arranged(app),
        0 <= index < app.sessions.len(),
    ensures
        is_arranged(menu::applied(app, index, MenuAction::RemoveFromGroup, 0)),
{
    let after = menu::applied(app, index, MenuAction::RemoveFromGroup, 0);
    let own = app.sessions[index];
    let others = groups::regrouped(app.sessions, index, None);
    assert forall|id: u64, other: u64| #[trigger]
        is_member(others, id, other) <==> id != own.id && is_member(app.sessions, id, other) by {
        lemma_regrouped(app.sessions, index, None, id, other);
    }
    lemma_leaf_dropped(app, index, others);
    lemma_kept(groups::leaf_dropped(app.group_layouts, own.group, own.id), others);
    assert(after.sessions == others);
    assert forall|i: int, j: int| 0 <= i < j < others.len() implies (#[trigger] others[i]).id != (
    #[trigger] others[j]).id by {
        assert(app.sessions[i].id != app.sessions[j].id);
    }
    assert forall|i: int| 0 <= i < others.len() implies (#[trigger] others[i]).id
        < app.next_session_id && (others[i].group matches Some(group) ==> group
        < app.next_group_id) by {
        assert(app.sessions[i].id < app.next_session_id);
    }
    assert(groups_are_fresh(after)) by {
        assert forall|group: u64| #[trigger]
            after.group_layouts.contains_key(group) implies group < after.next_group_id by {
            assert(app.group_layouts.contains_key(group));
        }
    }
}

#[verifier::rlimit(40)]
proof fn lemma_created_is_arranged(app: AppView, index: int)
    requires
        is_arranged(app),
        0 <= index < app.sessions.len(),
        app.active < app.sessions.len(),
        app.sessions[index].group is None,
        app.next_group_id < u64::MAX,
    ensures
        is_arranged(menu::group_created(app, index)),
{
    let after = menu::group_created(app, index);
    let alone = groups::with_group(app, index);
    let new = app.next_group_id;
    lemma_with_group_is_arranged(app, index);
    match menu::partner(app, index) {
        None => {
            lemma_same_is_arranged(alone, after);
        },
        Some(other) => {
            let own = app.sessions[index].id;
            let with = app.sessions[other].id;
            assert(own != with) by {
                if index < other {
                    assert(app.sessions[index].id != app.sessions[other].id);
                } else {
                    assert(app.sessions[other].id != app.sessions[index].id);
                }
            }
            assert(alone.sessions[other] == app.sessions[other]);
            assert(after.sessions == groups::regrouped(alone.sessions, other, Some(new)));
            assert forall|i: int, j: int| 0 <= i < j < after.sessions.len() implies (
            #[trigger] after.sessions[i]).id != (#[trigger] after.sessions[j]).id by {
                assert(alone.sessions[i].id != alone.sessions[j].id);
            }
            assert forall|i: int| 0 <= i < after.sessions.len() implies (
            #[trigger] after.sessions[i]).id < after.next_session_id && (
            after.sessions[i].group matches Some(group) ==> group < after.next_group_id) by {
                assert(alone.sessions[i].id < alone.next_session_id);
            }
            assert forall|group: u64| #[trigger] after.group_layouts.contains_key(
                group,
            ) implies shows_members(after.group_layouts[group], after.sessions, group) by {
                let leaves = layout::leaves(after.group_layouts[group]);
                assert(alone.group_layouts.contains_key(group));
                let before = layout::leaves(alone.group_layouts[group]);
                assert(shows_members(alone.group_layouts[group], alone.sessions, group));
                if group == new {
                    reveal_with_fuel(layout::leaves, 2);
                    assert(before =~= seq![own]);
                    assert(leaves =~= seq![own].push(with));
                    assert(!before.contains(with)) by {
                        if before.contains(with) {
                            let k = choose|k: int| 0 <= k < before.len() && before[k] == with;
                            assert(before[k] == own);
                        }
                    }
                    lemma_pushed(before, with);
                }
                assert forall|id: u64| #[trigger] leaves.contains(id) <==> is_member(
                    after.sessions,
                    id,
                    group,
                ) by {
                    lemma_regrouped(alone.sessions, other, Some(new), id, group);
                    lemma_own_group(alone.sessions, other, group);
                    assert(before.contains(id) <==> is_member(alone.sessions, id, group));
                }
            }
            assert(groups_are_fresh(after)) by {
                assert forall|group: u64| #[trigger]
                    after.group_layouts.contains_key(group) implies group
                    < after.next_group_id by {
                    assert(alone.group_layouts.contains_key(group));
                }
            }
        },
    }
}

/// Carrying out an entry of a menu that fits the state of the workspace keeps the groups arranged.
#[verifier::rlimit(40)]
pub proof fn menu_entries_keep_groups_arranged(
    app: AppView,
    session_id: u64,
    action: MenuAction,
    now: u64,
)
    requires
        is_arranged(app),
        app.active < app.sessions.len(),
        menu::can_apply(app, session_id, action),
        is_current(app, session_id, action),
    ensures
        is_arranged(menu::menu_applied(app, session_id, action, now)),
{
    session::lemma_position(app.sessions, session_id, 0);
    if let Some(index) = session::position_of(app.sessions, session_id) {
        let after = menu::applied(app, index, action, now);
        match action {
            MenuAction::Close => lemma_request_is_arranged(app, index, now),
            MenuAction::CreateGroup => lemma_created_is_arranged(app, index),
            MenuAction::RemoveFromGroup => lemma_leaving_is_arranged(app, index),
            MenuAction::Ungroup(group) => lemma_ungroup_is_arranged(app, index, group),
            MenuAction::LayoutHorizontal(group) => lemma_tiled_is_arranged(
                app,
                group,
                SplitAxis::Horizontal,
            ),
            MenuAction::LayoutVertical(group) => lemma_tiled_is_arranged(
                app,
                group,
                SplitAxis::Vertical,
            ),
            MenuAction::PlaceRelative { target, pane, axis } => {
                session::lemma_position(app.sessions, target, 0);
                if let Some(place) = session::position_of(app.sessions, target) {
                    match app.sessions[place].group {
                        Some(group) => {
                            assert(is_member(app.sessions, target, group));
                            lemma_placed_is_arranged(app, group, target, pane, axis);
                        },
                        None => {
                            lemma_with_group_is_arranged(app, place);
                            lemma_placed_is_arranged(
                                groups::with_group(app, place),
                                app.next_group_id,
                                target,
                                pane,
                                axis,
                            );
                        },
                    }
                }
            },
            MenuAction::EqualizeGroup(group) => {
                if app.group_layouts.contains_key(group) {
                    layout_laws::equalizing_keeps_the_panes(app.group_layouts[group]);
                }
                lemma_same_is_arranged(app, after);
            },
            _ => lemma_same_is_arranged(app, after),
        }
    }
}

proof fn lemma_confirmed_is_arranged(app: AppView, session_id: u64)
    requires
        is_arranged(app),
    ensures
        is_arranged(input::close_confirmed(app, session_id).0),
{
    session::lemma_position(app.sessions, session_id, 0);
    if let Some(index) = session::position_of(app.sessions, session_id) {
        closing_keeps_groups_arranged(app, index);
    }
}

#[verifier::rlimit(40)]
proof fn lemma_prefix_key_is_arranged(app: AppView, key: KeyEvent, now: u64)
    requires
        is_arranged(app),
    ensures
        is_arranged(input::prefixed(app, key, now).0),
{
    let after = input::prefixed(app, key, now).0;
    if key.code == KeyCode::Char('w') || key.code == KeyCode::Char('W') {
        lemma_request_is_arranged(app, app.active as int, now);
    } else {
        assert(after.sessions == app.sessions);
        assert(after.group_layouts == app.group_layouts);
        lemma_same_is_arranged(app, after);
    }
}

proof fn lemma_normal_key_is_arranged(app: AppView, key: KeyEvent, now: u64)
    requires
        is_arranged(app),
    ensures
        is_arranged(input::normal_keyed(app, key, now).0),
{
    let idle = AppView { prefix_started: None, ..app };
    lemma_same_is_arranged(app, idle);
    if app.prefix_started is Some {
        lemma_prefix_key_is_arranged(idle, key, now);
    } else {
        let typed = input::typed_in(app, key, now);
        assert(same_members(typed.sessions, app.sessions));
        lemma_same_is_arranged(app, typed);
        lemma_same_is_arranged(app, input::prefix_pressed(app, now));
    }
}

/// A key keeps the groups arranged.
#[verifier::rlimit(40)]
pub proof fn keys_keep_groups_arranged(app: AppView, key: KeyEvent, now: u64)
    requires
        is_arranged(app),
    ensures
        is_arranged(input::keyed(app, key, now).0),
{
    let current = input::prefix_expired(app, now);
    lemma_same_is_arranged(app, current);
    match app.input_mode {
        InputModeView::Normal => lemma_normal_key_is_arranged(current, key, now),
        InputModeView::Rename { session_id, value } => {
            session::lemma_position(app.sessions, session_id, 0);
            let after = input::rename_keyed(current, session_id, value, key);
            assert(same_members(after.sessions, app.sessions));
            lemma_same_is_arranged(app, after);
        },
        InputModeView::RenameGroup { group_id, value } => {
            lemma_same_is_arranged(app, input::group_rename_keyed(current, group_id, value, key));
        },
        InputModeView::ConfirmClose { session_id } => {
            lemma_confirmed_is_arranged(current, session_id);
            lemma_same_is_arranged(app, input::back_to_normal(current));
        },
    }
}

/// The entries of the open menu fit the state of the workspace.
pub open spec fn menu_is_current(app: AppView) -> bool {
    app.context_menu matches Some(menu) ==> forall|i: int|
        0 <= i < menu.entries.len() ==> is_current(
            app,
            menu.session_id,
            (#[trigger] menu.entries[i]).1,
        )
}

proof fn lemma_drag_is_arranged(app: AppView, x: int, y: int)
    requires
        is_arranged(app),
    ensures
        is_arranged(mouse::dragged(app, x, y)),
{
    if mouse::drags(app) {
        let hit = app.dragging_split->0;
        let layout = app.group_layouts[hit.group];
        layout_laws::moving_a_divider_keeps_the_panes(
            layout,
            hit.path,
            mouse::dragged_ratio(hit, x, y) as u16,
        );
        lemma_same_is_arranged(app, mouse::dragged(app, x, y));
    }
}

/// A mouse event keeps the groups arranged.
#[verifier::rlimit(40)]
pub proof fn the_mouse_keeps_groups_arranged(app: AppView, event: MouseEvent, now: u64)
    requires
        is_arranged(app),
        app.active < app.sessions.len(),
        mouse::can_handle(app, event),
        menu_is_current(app),
    ensures
        is_arranged(mouse::moused(app, event, now).0),
{
    let x = event.column as int;
    let y = event.row as int;
    match app.input_mode {
        InputModeView::ConfirmClose { session_id } => lemma_confirmed_is_arranged(
            app,
            session_id,
        ),
        _ => match app.context_menu {
            Some(menu) => {
                let shut = AppView { context_menu: None, ..app };
                lemma_same_is_arranged(app, shut);
                if let Some(action) = mouse::entry_at(menu, x, y) {
                    let row = y - menu.area.y - 1;
                    assert(is_current(app, menu.session_id, menu.entries[row].1));
                    if event.kind == MouseEventKind::Down(MouseButton::Left) {
                        menu_entries_keep_groups_arranged(shut, menu.session_id, action, now);
                    }
                }
            },
            None => {
                if let Some(index) = mouse::closing_tab(app, x, y) {
                    lemma_request_is_arranged(app, index as int, now);
                }
                lemma_drag_is_arranged(app, x, y);
            },
        },
    }
}

/// A new session keeps the groups arranged.
pub proof fn new_sessions_keep_groups_arranged(
    app: AppView,
    cwd: Seq<u8>,
    shell_pid: Option<u32>,
)
    requires
        is_arranged(app),
        app.next_session_id < u64::MAX,
    ensures
        is_arranged(app::with_session(app, cwd, shell_pid)),
{
    let after = app::with_session(app, cwd, shell_pid);
    assert forall|i: int, j: int| 0 <= i < j < after.sessions.len() implies (
    #[trigger] after.sessions[i]).id != (#[trigger] after.sessions[j]).id by {
        assert(after.sessions[i] == app.sessions[i]);
        assert(app.sessions[i].id < app.next_session_id);
        if j < app.sessions.len() {
            assert(after.sessions[j] == app.sessions[j]);
        }
    }
    assert forall|group: u64| #[trigger] after.group_layouts.contains_key(
        group,
    ) implies shows_members(after.group_layouts[group], after.sessions, group) by {
        assert(shows_members(app.group_layouts[group], app.sessions, group));
        assert forall|id: u64| #[trigger]
            layout::leaves(after.group_layouts[group]).contains(id) <==> is_member(
                after.sessions,
                id,
                group,
            ) by {
            if is_member(app.sessions, id, group) {
                let i = choose|i: int|
                    0 <= i < app.sessions.len() && (#[trigger] app.sessions[i]).id == id
                        && app.sessions[i].group == Some(group);
                assert(after.sessions[i] == app.sessions[i]);
            }
            if is_member(after.sessions, id, group) {
                let i = choose|i: int|
                    0 <= i < after.sessions.len() && (#[trigger] after.sessions[i]).id == id
                        && after.sessions[i].group == Some(group);
                assert(after.sessions[i] == app.sessions[i]);
            }
        }
    }
    assert forall|i: int| 0 <= i < after.sessions.len() implies ((
    #[trigger] after.sessions[i]).group matches Some(group) ==> group < after.next_group_id) by {
        if i < app.sessions.len() {
            assert(after.sessions[i] == app.sessions[i]);
        }
    }
}

/// A workspace that is started from its own snapshot has its groups arranged.
pub proof fn kept_groups_come_back_arranged(
    app: AppView,
    area: Rect,
    host_terminal: Seq<char>,
    started: Seq<StartedView>,
    now: u64,
    later: u64,
)
    requires
        is_arranged(app),
        app.active < app.sessions.len() <= usize::MAX,
        !app.clear_workspace_on_exit,
        started.len() == app.sessions.len(),
        later <= u64::MAX - workspace::RESTORE_GRACE,
    ensures
        is_arranged(
            workspace::started_workspace(
                area,
                host_terminal,
                workspace::usable(Some(workspace::snapshot_of(app, now))),
                started,
                later,
            ),
        ),
{
    let back = workspace::started_workspace(
        area,
        host_terminal,
        workspace::usable(Some(workspace::snapshot_of(app, now))),
        started,
        later,
    );
    workspace_laws::a_kept_workspace_comes_back(app, area, host_terminal, started, now, later);
    assert forall|i: int| 0 <= i < back.sessions.len() implies (#[trigger] back.sessions[i]).id
        == app.sessions[i].id && back.sessions[i].group == app.sessions[i].group by {}
    lemma_same_is_arranged(app, back);
}

proof fn lemma_pane_found(areas: Seq<(u64, Rect)>, sessions: Seq<SessionView>, k: int)
    requires
        0 <= k < areas.len(),
        session::position_of(sessions, areas[k].0) is Some,
    ensures
        layout::panes_among(areas, sessions).contains(
            (session::position_of(sessions, areas[k].0)->0 as usize, areas[k].1),
        ),
    decreases areas.len(),
{
    let all = layout::panes_among(areas, sessions);
    let wanted = (session::position_of(sessions, areas[k].0)->0 as usize, areas[k].1);
    if k < areas.len() - 1 {
        let front = areas.drop_last();
        assert(front[k] == areas[k]);
        lemma_pane_found(front, sessions, k);
        let before = layout::panes_among(front, sessions);
        let i = choose|i: int| 0 <= i < before.len() && before[i] == wanted;
        assert(all[i] == wanted);
    } else {
        assert(all[all.len() - 1] == wanted);
    }
}

/// The panes on the screen are those of the group of the active session: every member has a pane,
/// and no other session has one.
pub proof fn the_panes_are_those_of_the_active_group(
    app: AppView,
    terminal: Rect,
    group: u64,
    index: int,
)
    requires
        is_arranged(app),
        app.active < app.sessions.len() <= usize::MAX,
        app.sessions[app.active as int].group == Some(group),
        0 <= index < app.sessions.len(),
    ensures
        app.sessions[index].group == Some(group) <==> exists|k: int|
            0 <= k < app::panes(app, terminal).len() && (#[trigger] app::panes(app, terminal)[k]).0
                == index,
{
    let layout = app::layout_of(app, group);
    let areas = layout::leaf_areas(layout, terminal);
    let panes = app::panes(app, terminal);
    assert(panes == layout::panes_among(areas, app.sessions));
    assert(shows_members(layout, app.sessions, group)) by {
        if !app.group_layouts.contains_key(group) {
            lemma_members(app.sessions, group);
            let ids = layout::members(app.sessions, group);
            assert(is_member(app.sessions, app.sessions[app.active as int].id, group));
            assert(ids.contains(app.sessions[app.active as int].id));
            layout_laws::balanced_layout_holds_all_panes(ids, SplitAxis::Horizontal);
        }
    }
    layout_laws::leaf_areas_follow_the_leaves(layout, terminal);
    let leaves = layout::leaves(layout);
    let own = app.sessions[index].id;
    lemma_own_group(app.sessions, index, group);
    if app.sessions[index].group == Some(group) {
        assert(leaves.contains(own));
        let k = choose|k: int| 0 <= k < leaves.len() && leaves[k] == own;
        assert(areas[k].0 == own);
        layout_laws::the_position_is_the_first(app.sessions, own);
        let place = session::position_of(app.sessions, own)->0;
        assert(place == index) by {
            if place < index {
                assert(app.sessions[place].id != app.sessions[index].id);
            }
        }
        lemma_pane_found(areas, app.sessions, k);
        let found = choose|i: int|
            0 <= i < panes.len() && panes[i] == (index as usize, areas[k].1);
        assert(panes[found].0 == index);
    }
    if exists|k: int| 0 <= k < panes.len() && (#[trigger] panes[k]).0 == index {
        let k = choose|k: int| 0 <= k < panes.len() && (#[trigger] panes[k]).0 == index;
        layout_laws::panes_belong_to_sessions(areas, app.sessions, k);
        let j = choose|j: int| 0 <= j < areas.len() && areas[j] == (own, panes[k].1);
        assert(areas[j].0 == leaves[j]);
        assert(leaves.contains(own));
    }
}

/// A pane that is placed in a layout without it gets one leaf there, and every other pane keeps its
/// own.
pub proof fn a_placed_pane_has_one_leaf(
    layout: PaneLayout,
    target: u64,
    pane: u64,
    axis: SplitAxis,
)
    requires
        layout::leaves(layout).no_duplicates(),
        !layout::leaves(layout).contains(pane),
    ensures
        layout::leaves(groups::beside(layout, target, pane, axis)).no_duplicates(),
        forall|id: u64| #[trigger]
            layout::leaves(groups::beside(layout, target, pane, axis)).contains(id)
                <==> layout::leaves(layout).contains(id) || id == pane,
{
    let leaves = layout::leaves(layout);
    if leaves.contains(target) {
        layout_laws::inserting_a_pane_puts_it_behind_its_target(layout, target, pane, axis);
        layout_laws::lemma_first_place_add(leaves, Seq::empty(), target);
        lemma_inserted(leaves, layout_laws::first_place(leaves, target) + 1, pane);
    } else {
        reveal_with_fuel(layout::leaves, 2);
        assert(layout::leaves(groups::beside(layout, target, pane, axis)) =~= leaves.push(pane));
        lemma_pushed(leaves, pane);
    }
}

} // verus!
