//! What the entries of the menus are called, and what they do.

use crate::app::{AppView, InputModeView, MenuAction};
use crate::geometry::Rect;
use crate::groups;
use crate::layout;
use crate::layout::{PaneLayout, SplitAxis};
use crate::layout_laws;
use crate::menu;
use crate::session;
use crate::session::SessionView;
use crate::split_laws;
use vstd::prelude::*;

verus! {

/// An entry of a menu of a tab has the label that says what it does.
pub open spec fn is_named(label: Seq<char>, action: MenuAction) -> bool {
    match action {
        MenuAction::Rename => label == "Rename"@,
        MenuAction::ClearName => label == "Clear custom name"@,
        MenuAction::RenameGroup(_) => label == "Rename group"@,
        MenuAction::ClearGroupName(_) => label == "Clear group name"@,
        MenuAction::LayoutHorizontal(_) => label == "Tile side by side"@,
        MenuAction::LayoutVertical(_) => label == "Tile top and bottom"@,
        MenuAction::PlaceRelative { target, pane, axis: SplitAxis::Horizontal } => label
            == "Place beside current pane"@,
        MenuAction::PlaceRelative { target, pane, axis: SplitAxis::Vertical } => label
            == "Place below current pane"@,
        MenuAction::EqualizeGroup(_) => label == "Equalize panes"@,
        MenuAction::CreateGroup => label == "Create pane group"@,
        MenuAction::RemoveFromGroup => label == "Remove from group"@,
        MenuAction::Ungroup(_) => label == "Ungroup"@,
        MenuAction::Close => label == "Close tab"@,
    }
}

/// One of the entries does the given thing.
pub open spec fn offers(entries: Seq<(Seq<char>, MenuAction)>, action: MenuAction) -> bool {
    exists|i: int| 0 <= i < entries.len() && (#[trigger] entries[i]).1 == action
}

/// The menu of a tab offers what can be done with its session, and nothing else. A session is
/// placed beside or below the active one.
pub proof fn tab_menus_offer_what_can_be_done(app: AppView, index: int, action: MenuAction)
    requires
        0 <= index < app.sessions.len(),
        app.active < app.sessions.len(),
    ensures
        ({
            let session = app.sessions[index];
            offers(menu::tab_entries(app, index), action) == match action {
                MenuAction::Rename => true,
                MenuAction::Close => true,
                MenuAction::ClearName => session.custom_name is Some,
                MenuAction::RemoveFromGroup => session.group is Some,
                MenuAction::CreateGroup => session.group is None,
                MenuAction::PlaceRelative { target, pane, axis } => index != app.active && target
                    == app.sessions[app.active as int].id && pane == session.id,
                _ => false,
            }
        }),
        forall|i: int|
            0 <= i < menu::tab_entries(app, index).len() ==> is_named(
                (#[trigger] menu::tab_entries(app, index)[i]).0,
                menu::tab_entries(app, index)[i].1,
            ),
{
    let entries = menu::tab_entries(app, index);
    let session = app.sessions[index];
    let named: int = if session.custom_name is Some { 1 } else { 0 };
    assert(entries[0].1 == MenuAction::Rename);
    assert(entries[entries.len() - 1].1 == MenuAction::Close);
    if session.custom_name is Some {
        assert(entries[1].1 == MenuAction::ClearName);
    }
    if session.group is Some {
        assert(entries[1 + named].1 == MenuAction::RemoveFromGroup);
    } else {
        assert(entries[1 + named].1 == MenuAction::CreateGroup);
    }
    if index != app.active {
        let target = app.sessions[app.active as int].id;
        assert(entries[2 + named].1 == (MenuAction::PlaceRelative {
            target,
            pane: session.id,
            axis: SplitAxis::Horizontal,
        }));
        assert(entries[3 + named].1 == (MenuAction::PlaceRelative {
            target,
            pane: session.id,
            axis: SplitAxis::Vertical,
        }));
    }
}

/// The menu of a group offers what can be done with it, and nothing else.
pub proof fn group_menus_offer_what_can_be_done(app: AppView, group: u64, action: MenuAction)
    ensures
        offers(menu::group_entries(app, group), action) == match action {
            MenuAction::RenameGroup(g) => g == group,
            MenuAction::ClearGroupName(g) => g == group && app.group_names.contains_key(group),
            MenuAction::Ungroup(g) => g == group,
            MenuAction::LayoutHorizontal(g) => g == group,
            MenuAction::LayoutVertical(g) => g == group,
            MenuAction::EqualizeGroup(g) => g == group,
            _ => false,
        },
        forall|i: int|
            0 <= i < menu::group_entries(app, group).len() ==> is_named(
                (#[trigger] menu::group_entries(app, group)[i]).0,
                menu::group_entries(app, group)[i].1,
            ),
{
    let entries = menu::group_entries(app, group);
    let named: int = if app.group_names.contains_key(group) { 1 } else { 0 };
    assert(entries[0].1 == MenuAction::RenameGroup(group));
    if named == 1 {
        assert(entries[1].1 == MenuAction::ClearGroupName(group));
    }
    assert(entries[1 + named].1 == MenuAction::Ungroup(group));
    assert(entries[2 + named].1 == MenuAction::LayoutHorizontal(group));
    assert(entries[3 + named].1 == MenuAction::LayoutVertical(group));
    assert(entries[4 + named].1 == MenuAction::EqualizeGroup(group));
}

/// Renaming starts with the name that was given before, or with nothing. Nothing else changes
/// before the name is confirmed.
pub proof fn renaming_starts_with_the_given_name(app: AppView, index: int, group: u64, now: u64)
    requires
        0 <= index < app.sessions.len(),
    ensures
        ({
            let after = menu::applied(app, index, MenuAction::Rename, now);
            &&& after == (AppView { input_mode: after.input_mode, ..app })
            &&& after.input_mode matches InputModeView::Rename { session_id, value } && session_id
                == app.sessions[index].id && value == match app.sessions[index].custom_name {
                Some(name) => name,
                None => seq![],
            }
        }),
        ({
            let after = menu::applied(app, index, MenuAction::RenameGroup(group), now);
            &&& after == (AppView { input_mode: after.input_mode, ..app })
            &&& after.input_mode matches InputModeView::RenameGroup { group_id, value } && group_id
                == group && (app.group_names.contains_key(group) ==> value
                == app.group_names[group]) && (!app.group_names.contains_key(group) ==> value.len()
                == 0)
        }),
{
}

/// Clearing a name takes it away from the one tab or group, and changes nothing else.
pub proof fn clearing_takes_one_name_away(app: AppView, index: int, group: u64, now: u64)
    requires
        0 <= index < app.sessions.len(),
    ensures
        menu::applied(app, index, MenuAction::ClearName, now) == (AppView {
            sessions: app.sessions.update(
                index,
                SessionView { custom_name: None, ..app.sessions[index] },
            ),
            ..app
        }),
        menu::applied(app, index, MenuAction::ClearGroupName(group), now) == (AppView {
            group_names: app.group_names.remove(group),
            ..app
        }),
{
}

/// The sessions are the same, but for the group of those at two places.
pub open spec fn same_but_groups(
    before: Seq<SessionView>,
    after: Seq<SessionView>,
    one: int,
    two: int,
) -> bool {
    &&& after.len() == before.len()
    &&& forall|i: int|
        0 <= i < before.len() ==> #[trigger] after[i] == (SessionView {
            group: after[i].group,
            ..before[i]
        })
    &&& forall|i: int|
        0 <= i < before.len() && i != one && i != two ==> #[trigger] after[i] == before[i]
}

/// A new group takes in the session that it is created for, which becomes the active one, and the
/// session that was active, if that is in no group. The first is shown on the left, and the second
/// on the right of it. No other session or layout changes.
pub proof fn new_groups_take_in_the_active_session(app: AppView, index: int, now: u64)
    requires
        0 <= index < app.sessions.len() <= usize::MAX,
        app.active < app.sessions.len(),
        app.next_group_id < u64::MAX,
    ensures
        ({
            let after = menu::applied(app, index, MenuAction::CreateGroup, now);
            let other = app.active as int;
            let group = app.next_group_id;
            let joined = other != index && app.sessions[other].group is None;
            &&& after.active == index
            &&& after.next_group_id == group + 1
            &&& same_but_groups(app.sessions, after.sessions, index, other)
            &&& after.sessions[index].group == Some(group)
            &&& joined ==> after.sessions[other].group == Some(group)
            &&& !joined && other != index ==> after.sessions[other] == app.sessions[other]
            &&& after.group_layouts.contains_key(group)
            &&& layout::leaves(after.group_layouts[group]) == if joined {
                seq![app.sessions[index].id, app.sessions[other].id]
            } else {
                seq![app.sessions[index].id]
            }
            &&& layout_laws::runs_along(after.group_layouts[group], SplitAxis::Horizontal)
            &&& split_laws::is_even(after.group_layouts[group])
            &&& forall|g: u64|
                g != group && app.group_layouts.contains_key(g)
                    ==> after.group_layouts.contains_key(g) && #[trigger] after.group_layouts[g]
                    == app.group_layouts[g]
            &&& menu::applying(app, index, MenuAction::CreateGroup, now) is Resize
        }),
{
    reveal_with_fuel(layout::leaves, 2);
    reveal_with_fuel(layout_laws::runs_along, 2);
    reveal_with_fuel(split_laws::is_even, 2);
    let after = menu::applied(app, index, MenuAction::CreateGroup, now);
    let other = app.active as int;
    let layout = after.group_layouts[app.next_group_id];
    if other != index && app.sessions[other].group is None {
        assert(layout::leaves(layout) =~= seq![app.sessions[index].id, app.sessions[other].id]);
    } else {
        assert(layout::leaves(layout) =~= seq![app.sessions[index].id]);
    }
}

/// A session that is removed from its group is in no group. The others stay in theirs, and its pane
/// is gone from the layout of the group, if that has other panes. The active session stays.
pub proof fn removed_sessions_leave_their_group(app: AppView, index: int, group: u64, now: u64)
    requires
        0 <= index < app.sessions.len(),
        app.sessions[index].group == Some(group),
    ensures
        ({
            let after = menu::applied(app, index, MenuAction::RemoveFromGroup, now);
            &&& after.active == app.active
            &&& same_but_groups(app.sessions, after.sessions, index, index)
            &&& after.sessions[index].group is None
            &&& after.group_layouts.contains_key(group) ==> app.group_layouts.contains_key(group)
                && layout::without(app.group_layouts[group], app.sessions[index].id) == Some(
                after.group_layouts[group],
            )
            &&& forall|g: u64| #[trigger]
                after.group_layouts.contains_key(g) && g != group ==> after.group_layouts[g]
                    == app.group_layouts[g]
            &&& forall|g: u64, i: int|
                0 <= i < app.sessions.len() && i != index && (#[trigger] app.sessions[i]).group
                    == Some(g) && g != group && app.group_layouts.contains_key(g)
                    ==> #[trigger] after.group_layouts.contains_key(g)
        }),
{
    let after = menu::applied(app, index, MenuAction::RemoveFromGroup, now);
    assert forall|g: u64, i: int|
        0 <= i < app.sessions.len() && i != index && (#[trigger] app.sessions[i]).group == Some(g)
            && g != group && app.group_layouts.contains_key(
            g,
        ) implies #[trigger] after.group_layouts.contains_key(g) by {
        assert(after.sessions[i].group == Some(g));
        assert(groups::in_use(after.sessions, g));
    }
}

/// Dissolving a group leaves the other groups and everything else of the sessions as they are.
pub proof fn dissolving_leaves_the_other_groups(app: AppView, index: int, group: u64, now: u64)
    ensures
        ({
            let after = menu::applied(app, index, MenuAction::Ungroup(group), now);
            &&& after.active == app.active
            &&& after.sessions.len() == app.sessions.len()
            &&& forall|i: int|
                0 <= i < app.sessions.len() ==> #[trigger] after.sessions[i] == (SessionView {
                    group: if app.sessions[i].group == Some(group) {
                        None
                    } else {
                        app.sessions[i].group
                    },
                    ..app.sessions[i]
                })
            &&& after.group_layouts == app.group_layouts.remove(group)
            &&& after.group_names == app.group_names.remove(group)
        }),
{
}

/// Tiling a group lays out its members in their order, side by side or on top of each other, in
/// equal parts. Equalizing it puts every divider of its layout in the middle and moves no pane to
/// another place. Neither changes a session or another layout.
pub proof fn tiling_lays_out_the_members(app: AppView, index: int, group: u64, now: u64)
    requires
        layout::members(app.sessions, group).len() > 0,
    ensures
        ({
            let beside = menu::applied(app, index, MenuAction::LayoutHorizontal(group), now);
            let below = menu::applied(app, index, MenuAction::LayoutVertical(group), now);
            let members = layout::members(app.sessions, group);
            &&& beside.sessions == app.sessions && below.sessions == app.sessions
            &&& beside.active == app.active && below.active == app.active
            &&& layout::leaves(beside.group_layouts[group]) == members
            &&& layout::leaves(below.group_layouts[group]) == members
            &&& layout_laws::runs_along(beside.group_layouts[group], SplitAxis::Horizontal)
            &&& layout_laws::runs_along(below.group_layouts[group], SplitAxis::Vertical)
            &&& split_laws::is_even(beside.group_layouts[group])
            &&& split_laws::is_even(below.group_layouts[group])
            &&& beside.group_layouts.remove(group) =~= app.group_layouts.remove(group)
            &&& below.group_layouts.remove(group) =~= app.group_layouts.remove(group)
        }),
        app.group_layouts.contains_key(group) ==> ({
            let equal = menu::applied(app, index, MenuAction::EqualizeGroup(group), now);
            &&& equal.sessions == app.sessions
            &&& equal.active == app.active
            &&& split_laws::same_shape(app.group_layouts[group], equal.group_layouts[group])
            &&& layout_laws::is_equal(equal.group_layouts[group])
            &&& equal.group_layouts.remove(group) =~= app.group_layouts.remove(group)
        }),
{
    let members = layout::members(app.sessions, group);
    layout_laws::balanced_layout_holds_all_panes(members, SplitAxis::Horizontal);
    layout_laws::balanced_layout_holds_all_panes(members, SplitAxis::Vertical);
    split_laws::balanced_layouts_are_even(members, SplitAxis::Horizontal);
    split_laws::balanced_layouts_are_even(members, SplitAxis::Vertical);
    if app.group_layouts.contains_key(group) {
        split_laws::equalizing_changes_only_ratios(app.group_layouts[group]);
        layout_laws::equalizing_keeps_the_panes(app.group_layouts[group]);
    }
}

/// The members of a group are the ids of the sessions in it, in their order.
pub proof fn members_are_the_sessions_of_the_group(sessions: Seq<SessionView>, group: u64, i: int)
    requires
        0 <= i < sessions.len(),
    ensures
        sessions[i].group == Some(group) ==> layout::members(sessions, group).contains(
            sessions[i].id,
        ),
        layout::members(sessions, group) == layout::members(sessions.take(i), group) + (
        if sessions[i].group == Some(group) {
            seq![sessions[i].id]
        } else {
            seq![]
        }) + layout::members(sessions.skip(i + 1), group),
    decreases sessions.len(),
{
    let all = layout::members(sessions, group);
    let own = if sessions[i].group == Some(group) { seq![sessions[i].id] } else { seq![] };
    if i == sessions.len() - 1 {
        assert(sessions.drop_last() =~= sessions.take(i));
        assert(sessions.skip(i + 1) =~= Seq::empty());
        assert(all =~= layout::members(sessions.take(i), group) + own + layout::members(
            sessions.skip(i + 1),
            group,
        ));
    } else {
        let front = sessions.drop_last();
        members_are_the_sessions_of_the_group(front, group, i);
        assert(front.take(i) =~= sessions.take(i));
        assert(sessions.skip(i + 1).drop_last() =~= front.skip(i + 1));
        assert(all =~= layout::members(sessions.take(i), group) + own + layout::members(
            sessions.skip(i + 1),
            group,
        ));
    }
    if sessions[i].group == Some(group) {
        assert(all[layout::members(sessions.take(i), group).len() as int] == sessions[i].id);
    }
}

/// A pane of another group, or of none, that is placed beside or below a target in a group takes
/// half of the area of the target, to its right or below it, wherever the group is shown. The
/// other panes of the group stay where they are, and the target is the active session.
pub proof fn placed_panes_lie_beside_their_target(
    app: AppView,
    target: u64,
    pane: u64,
    axis: SplitAxis,
    group: u64,
    area: Rect,
)
    requires
        app.sessions.len() <= usize::MAX,
        target != pane,
        session::position_of(app.sessions, pane) matches Some(index) && app.sessions[index].group
            != Some(group),
        session::position_of(app.sessions, target) matches Some(index) && app.sessions[index].group
            == Some(group),
        app.group_layouts.contains_key(group),
        layout::leaves(app.group_layouts[group]).contains(target),
    ensures
        ({
            let after = groups::placed_relative(app, target, pane, axis);
            let before = layout::leaf_areas(app.group_layouts[group], area);
            let place = layout_laws::first_place(
                layout::leaves(app.group_layouts[group]),
                target,
            );
            let whole = before[place].1;
            &&& after.group_layouts.contains_key(group)
            &&& before[place].0 == target
            &&& layout::leaf_areas(after.group_layouts[group], area) == before.update(
                place,
                (target, layout::first_area(axis, 50, whole)),
            ).insert(place + 1, (pane, layout::second_area(axis, 50, whole)))
            &&& Some(after.active as int) == session::position_of(app.sessions, target)
            &&& after.sessions[session::position_of(app.sessions, pane)->0].group == Some(group)
            &&& groups::placing_relative(app, target, pane) is Resize
        }),
{
    let index = session::position_of(app.sessions, pane)->0;
    let place = session::position_of(app.sessions, target)->0;
    session::lemma_position(app.sessions, pane, 0);
    session::lemma_position(app.sessions, target, 0);
    split_laws::placed_panes_share_the_area_of_their_target(
        app.group_layouts[group],
        target,
        pane,
        axis,
        area,
    );
    let after = groups::placed_relative(app, target, pane, axis);
    let moved = groups::regrouped(app.sessions, index, Some(group));
    session::lemma_same_ids(moved, app.sessions, target, 0);
    assert(after.sessions == moved);
    assert(after.sessions[index].group == Some(group));
    assert(groups::in_use(after.sessions, group));
}

/// A pane that is placed beside or below a target of its own group leaves its place and takes half
/// of the area that the target has without it.
pub proof fn moved_panes_lie_beside_their_target(
    app: AppView,
    target: u64,
    pane: u64,
    axis: SplitAxis,
    group: u64,
    rest: PaneLayout,
    area: Rect,
)
    requires
        app.sessions.len() <= usize::MAX,
        target != pane,
        session::position_of(app.sessions, pane) matches Some(index) && app.sessions[index].group
            == Some(group),
        session::position_of(app.sessions, target) matches Some(index) && app.sessions[index].group
            == Some(group),
        app.group_layouts.contains_key(group),
        layout::without(app.group_layouts[group], pane) == Some(rest),
        layout::leaves(rest).contains(target),
    ensures
        ({
            let after = groups::placed_relative(app, target, pane, axis);
            let before = layout::leaf_areas(rest, area);
            let place = layout_laws::first_place(layout::leaves(rest), target);
            let whole = before[place].1;
            &&& before[place].0 == target
            &&& layout::leaf_areas(after.group_layouts[group], area) == before.update(
                place,
                (target, layout::first_area(axis, 50, whole)),
            ).insert(place + 1, (pane, layout::second_area(axis, 50, whole)))
            &&& Some(after.active as int) == session::position_of(app.sessions, target)
            &&& after.sessions == app.sessions
        }),
{
    let index = session::position_of(app.sessions, pane)->0;
    session::lemma_position(app.sessions, pane, 0);
    session::lemma_position(app.sessions, target, 0);
    split_laws::placed_panes_share_the_area_of_their_target(rest, target, pane, axis, area);
    let moved = groups::regrouped(app.sessions, index, Some(group));
    assert(moved =~= app.sessions);
}

/// A pane that is placed beside or below a target in no group makes a new group with it: the target
/// first, then the pane.
pub proof fn placing_at_a_single_tab_makes_a_group(
    app: AppView,
    target: u64,
    pane: u64,
    axis: SplitAxis,
)
    requires
        app.sessions.len() <= usize::MAX,
        target != pane,
        app.next_group_id < u64::MAX,
        session::position_of(app.sessions, pane) matches Some(index) && app.sessions[index].group
            != Some(app.next_group_id),
        session::position_of(app.sessions, target) matches Some(index)
            && app.sessions[index].group is None,
    ensures
        ({
            let after = groups::placed_relative(app, target, pane, axis);
            let group = app.next_group_id;
            &&& after.group_layouts.contains_key(group)
            &&& layout::leaves(after.group_layouts[group]) == seq![target, pane]
            &&& layout_laws::runs_along(after.group_layouts[group], axis)
            &&& split_laws::is_even(after.group_layouts[group])
            &&& after.next_group_id == group + 1
            &&& after.sessions[session::position_of(app.sessions, pane)->0].group == Some(group)
            &&& after.sessions[session::position_of(app.sessions, target)->0].group == Some(group)
            &&& Some(after.active as int) == session::position_of(app.sessions, target)
        }),
{
    let index = session::position_of(app.sessions, pane)->0;
    let place = session::position_of(app.sessions, target)->0;
    let group = app.next_group_id;
    session::lemma_position(app.sessions, pane, 0);
    session::lemma_position(app.sessions, target, 0);
    let grouped = groups::with_group(app, place);
    session::lemma_same_ids(grouped.sessions, app.sessions, target, 0);
    session::lemma_same_ids(grouped.sessions, app.sessions, pane, 0);
    let moved = groups::regrouped(grouped.sessions, index, Some(group));
    session::lemma_same_ids(moved, app.sessions, target, 0);
    let after = groups::placed_relative(app, target, pane, axis);
    assert(after.sessions == moved);
    assert(after.sessions[index].group == Some(group));
    assert(groups::in_use(after.sessions, group));
    reveal_with_fuel(layout::leaves, 2);
    reveal_with_fuel(layout_laws::runs_along, 2);
    reveal_with_fuel(split_laws::is_even, 2);
    let leaf = PaneLayout::Leaf(target);
    assert(layout::leaves(leaf)[0] == target);
    let layout = after.group_layouts[group];
    assert(layout == layout::pair(target, pane, axis));
    assert(layout::leaves(layout) =~= seq![target, pane]);
}

/// A pane whose target is not in the layout takes the second half of the whole area, and all others
/// share the first half as they shared the whole.
pub proof fn panes_without_a_target_lie_beside_all_others(
    layout: PaneLayout,
    target: u64,
    pane: u64,
    axis: SplitAxis,
    area: Rect,
)
    requires
        !layout::leaves(layout).contains(target),
    ensures
        layout::leaf_areas(groups::beside(layout, target, pane, axis), area) == layout::leaf_areas(
            layout,
            layout::first_area(axis, 50, area),
        ).push((pane, layout::second_area(axis, 50, area))),
{
    reveal_with_fuel(layout::leaf_areas, 2);
    assert(layout::leaf_areas(groups::beside(layout, target, pane, axis), area)
        =~= layout::leaf_areas(layout, layout::first_area(axis, 50, area)).push(
        (pane, layout::second_area(axis, 50, area)),
    ));
}

} // verus!
