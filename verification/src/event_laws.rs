//! What every event keeps.

use crate::app;
use crate::app::{AppView, InputModeView, MenuAction};
use crate::events::{KeyCode, KeyEvent, KeyEventKind, MouseEvent};
use crate::geometry::{Rect, MOBILE_THRESHOLD};
use crate::groups;
use crate::input;
use crate::labels;
use crate::layout;
use crate::layout::{PaneLayout, SplitAxis};
use crate::menu;
use crate::mouse;
use crate::session;
use crate::session::SessionView;
use crate::tab_laws;
use crate::tabs;
use crate::text;
use vstd::prelude::*;

verus! {

/// The session ids differ from each other and from all ids that will be given to new sessions.
pub open spec fn ids_are_fresh(sessions: Seq<SessionView>, next: u64) -> bool {
    &&& forall|i: int| 0 <= i < sessions.len() ==> (#[trigger] sessions[i]).id < next
    &&& forall|i: int, j: int|
        0 <= i < j < sessions.len() ==> (#[trigger] sessions[i]).id != (#[trigger] sessions[j]).id
}

/// The active session exists, and the ids of the sessions are fresh.
pub open spec fn is_sound(app: AppView) -> bool {
    &&& app.active < app.sessions.len() <= usize::MAX
    &&& ids_are_fresh(app.sessions, app.next_session_id)
}

/// What was drawn belongs to sessions that exist.
pub open spec fn hits_are_current(app: AppView) -> bool {
    &&& forall|i: int|
        0 <= i < app.hits.tabs.len() ==> (#[trigger] app.hits.tabs[i]).index < app.sessions.len()
    &&& forall|i: int|
        0 <= i < app.hits.panes.len() ==> (#[trigger] app.hits.panes[i]).0 < app.sessions.len()
}

/// The sessions have the same ids in the same order.
spec fn same_ids(a: Seq<SessionView>, b: Seq<SessionView>) -> bool {
    &&& a.len() == b.len()
    &&& forall|i: int| 0 <= i < a.len() ==> (#[trigger] a[i]).id == b[i].id
}

proof fn lemma_same_is_sound(app: AppView, after: AppView)
    requires
        is_sound(app),
        same_ids(after.sessions, app.sessions),
        after.next_session_id == app.next_session_id,
        after.active < app.sessions.len(),
    ensures
        is_sound(after),
{
    assert forall|i: int, j: int| 0 <= i < j < after.sessions.len() implies (
    #[trigger] after.sessions[i]).id != (#[trigger] after.sessions[j]).id by {
        assert(app.sessions[i].id != app.sessions[j].id);
    }
}

/// Closing a tab keeps the workspace sound. The other sessions stay as they are, in their order.
pub proof fn closing_keeps_the_other_sessions(app: AppView, index: int)
    requires
        is_sound(app),
        0 <= index < app.sessions.len(),
    ensures
        is_sound(groups::closed(app, index)),
        app.sessions.len() > 1 ==> groups::closed(app, index).sessions == app.sessions.remove(
            index,
        ),
{
    let after = groups::closed(app, index);
    if app.sessions.len() > 1 {
        let rest = app.sessions.remove(index);
        assert forall|i: int| 0 <= i < rest.len() implies (#[trigger] rest[i]).id
            < app.next_session_id by {
            assert(rest[i] == app.sessions[if i < index { i } else { i + 1 }]);
        }
        assert forall|i: int, j: int| 0 <= i < j < rest.len() implies (#[trigger] rest[i]).id
            != (#[trigger] rest[j]).id by {
            assert(rest[i] == app.sessions[if i < index { i } else { i + 1 }]);
            assert(rest[j] == app.sessions[if j < index { j } else { j + 1 }]);
        }
        assert(after.sessions == rest);
    }
}

/// The last tab is not closed: asking for it asks back, and a confirmed close ends the program,
/// with the session as it is.
pub proof fn the_last_tab_is_not_closed(app: AppView, now: u64)
    requires
        app.sessions.len() == 1,
    ensures
        groups::close_requested(app, 0, now) == (AppView {
            input_mode: InputModeView::ConfirmClose { session_id: app.sessions[0].id },
            ..app
        }),
        groups::closed(app, 0) == (AppView {
            exit_requested: true,
            clear_workspace_on_exit: true,
            ..app
        }),
{
}

/// A tab in which a command runs is not closed without a confirmation, and an idle one among others
/// is closed at once.
pub proof fn running_commands_are_not_closed_unasked(app: AppView, index: int, now: u64)
    requires
        0 <= index < app.sessions.len(),
        app.sessions.len() > 1,
    ensures
        session::is_running(app.sessions[index], now) ==> groups::close_requested(
            app,
            index,
            now,
        ).sessions.len() == app.sessions.len() && groups::close_requested(
            app,
            index,
            now,
        ).input_mode == (InputModeView::ConfirmClose { session_id: app.sessions[index].id }),
        !session::is_running(app.sessions[index], now) ==> groups::close_requested(
            app,
            index,
            now,
        ).sessions == app.sessions.remove(index),
{
    let seen = groups::looked_at(app.sessions, index, now);
    assert(seen.remove(index) =~= app.sessions.remove(index));
}

proof fn lemma_request_is_sound(app: AppView, index: int, now: u64)
    requires
        is_sound(app),
        0 <= index,
    ensures
        is_sound(groups::close_requested(app, index, now)),
{
    if index < app.sessions.len() {
        let seen = AppView { sessions: groups::looked_at(app.sessions, index, now), ..app };
        lemma_same_is_sound(app, seen);
        closing_keeps_the_other_sessions(seen, index);
    }
}

proof fn lemma_placed_is_sound(
    app: AppView,
    group: u64,
    target: u64,
    pane: u64,
    axis: SplitAxis,
)
    requires
        is_sound(app),
    ensures
        is_sound(groups::placed(app, group, target, pane, axis)),
{
    session::lemma_position(app.sessions, pane, 0);
    if let Some(index) = session::position_of(app.sessions, pane) {
        let moved = groups::regrouped(app.sessions, index, Some(group));
        session::lemma_position(moved, target, 0);
        lemma_same_is_sound(app, groups::placed(app, group, target, pane, axis));
    }
}

/// Carrying out an entry of a menu keeps the workspace sound.
#[verifier::rlimit(40)]
pub proof fn menu_entries_keep_the_workspace_sound(
    app: AppView,
    session_id: u64,
    action: MenuAction,
    now: u64,
)
    requires
        is_sound(app),
    ensures
        is_sound(menu::menu_applied(app, session_id, action, now)),
{
    session::lemma_position(app.sessions, session_id, 0);
    if let Some(index) = session::position_of(app.sessions, session_id) {
        let after = menu::applied(app, index, action, now);
        match action {
            MenuAction::Close => lemma_request_is_sound(app, index, now),
            MenuAction::PlaceRelative { target, pane, axis } => {
                session::lemma_position(app.sessions, target, 0);
                if let Some(place) = session::position_of(app.sessions, target) {
                    match app.sessions[place].group {
                        Some(group) => lemma_placed_is_sound(app, group, target, pane, axis),
                        None => {
                            let grouped = groups::with_group(app, place);
                            lemma_same_is_sound(app, grouped);
                            lemma_placed_is_sound(
                                grouped,
                                app.next_group_id,
                                target,
                                pane,
                                axis,
                            );
                        },
                    }
                }
            },
            _ => lemma_same_is_sound(app, after),
        }
    }
}

proof fn lemma_confirmed_is_sound(app: AppView, session_id: u64)
    requires
        is_sound(app),
    ensures
        is_sound(input::close_confirmed(app, session_id).0),
{
    session::lemma_position(app.sessions, session_id, 0);
    if let Some(index) = session::position_of(app.sessions, session_id) {
        closing_keeps_the_other_sessions(app, index);
    }
}

proof fn lemma_focus_is_sound(app: AppView, direction: KeyCode)
    requires
        is_sound(app),
        hits_are_current(app),
    ensures
        is_sound(tabs::focused(app, direction)),
{
    if let Some(place) = tabs::pane_place_from(app.hits.panes, app.active, 0) {
        let current = app.hits.panes[place].1;
        if let Some(i) = tabs::nearest(app.hits.panes, app.active, direction, current) {
            assert(tabs::is_nearest(app.hits.panes, app.active, direction, current, i));
        }
    }
    lemma_same_is_sound(app, tabs::focused(app, direction));
}

proof fn lemma_prefix_key_is_sound(app: AppView, key: KeyEvent, now: u64)
    requires
        is_sound(app),
        hits_are_current(app),
    ensures
        is_sound(input::prefixed(app, key, now).0),
{
    tab_laws::units_are_in_order(app.sessions);
    lemma_focus_is_sound(app, KeyCode::Left);
    lemma_focus_is_sound(app, KeyCode::Right);
    lemma_focus_is_sound(app, KeyCode::Up);
    lemma_focus_is_sound(app, KeyCode::Down);
    lemma_request_is_sound(app, app.active as int, now);
    let list = tabs::units(app.sessions);
    if list.len() > 0 {
        let current = match tabs::unit_place(app.sessions, app.active as int) {
            Some(place) => place,
            None => 0,
        };
        assert(0 <= (current + 1) % list.len() as int);
        assert((current + 1) % (list.len() as int) < list.len());
        assert(0 <= (current - 1) % list.len() as int);
        assert((current - 1) % (list.len() as int) < list.len());
        lemma_same_is_sound(app, tabs::cycled(app, 1));
        lemma_same_is_sound(app, tabs::cycled(app, -1));
    }
}

/// A key keeps the workspace sound.
#[verifier::rlimit(40)]
pub proof fn keys_keep_the_workspace_sound(app: AppView, key: KeyEvent, now: u64)
    requires
        is_sound(app),
        hits_are_current(app),
    ensures
        is_sound(input::keyed(app, key, now).0),
{
    let current = input::prefix_expired(app, now);
    lemma_prefix_key_is_sound(AppView { prefix_started: None, ..current }, key, now);
    match app.input_mode {
        InputModeView::Normal => {
            let typed = input::typed_in(current, key, now);
            lemma_same_is_sound(app, typed);
        },
        InputModeView::Rename { session_id, value } => {
            session::lemma_position(app.sessions, session_id, 0);
            lemma_same_is_sound(app, input::rename_keyed(current, session_id, value, key));
        },
        InputModeView::RenameGroup { group_id, value } => {},
        InputModeView::ConfirmClose { session_id } => lemma_confirmed_is_sound(
            current,
            session_id,
        ),
    }
}

proof fn lemma_hit_bounds(areas: Seq<Rect>, x: int, y: int, from: int)
    requires
        0 <= from,
    ensures
        mouse::first_hit(areas, x, y, from) matches Some(i) ==> from <= i < areas.len()
            && areas[i].holds(x, y),
    decreases areas.len() - from,
{
    if from < areas.len() && !areas[from].holds(x, y) {
        lemma_hit_bounds(areas, x, y, from + 1);
    }
}

/// A mouse event keeps the workspace sound.
#[verifier::rlimit(40)]
pub proof fn the_mouse_keeps_the_workspace_sound(app: AppView, event: MouseEvent, now: u64)
    requires
        is_sound(app),
        hits_are_current(app),
    ensures
        is_sound(mouse::moused(app, event, now).0),
{
    let x = event.column as int;
    let y = event.row as int;
    lemma_hit_bounds(mouse::close_areas(app.hits.tabs), x, y, 0);
    lemma_hit_bounds(mouse::body_areas(app.hits.tabs), x, y, 0);
    lemma_hit_bounds(mouse::areas_of(app.hits.panes), x, y, 0);
    match app.input_mode {
        InputModeView::ConfirmClose { session_id } => lemma_confirmed_is_sound(app, session_id),
        _ => match app.context_menu {
            Some(menu) => {
                let shut = AppView { context_menu: None, ..app };
                if let Some(action) = mouse::entry_at(menu, x, y) {
                    menu_entries_keep_the_workspace_sound(shut, menu.session_id, action, now);
                }
            },
            None => {
                if let Some(index) = mouse::closing_tab(app, x, y) {
                    lemma_request_is_sound(app, index as int, now);
                }
            },
        },
    }
}

/// Pasting a text keeps the workspace sound.
pub proof fn pasting_keeps_the_workspace_sound(app: AppView, pasted: Seq<char>, now: u64)
    requires
        is_sound(app),
    ensures
        is_sound(input::pasted_in(app, pasted, now)),
{
    lemma_same_is_sound(app, input::pasted_in(app, pasted, now));
}

/// A new session keeps the workspace sound: its id was not in use.
pub proof fn new_sessions_keep_the_workspace_sound(
    app: AppView,
    cwd: Seq<u8>,
    shell_pid: Option<u32>,
)
    requires
        is_sound(app),
        app.sessions.len() < usize::MAX,
        app.next_session_id < u64::MAX,
    ensures
        is_sound(app::with_session(app, cwd, shell_pid)),
{
    let after = app::with_session(app, cwd, shell_pid);
    assert forall|i: int, j: int| 0 <= i < j < after.sessions.len() implies (
    #[trigger] after.sessions[i]).id != (#[trigger] after.sessions[j]).id by {
        assert(after.sessions[i] == app.sessions[i]);
        assert(app.sessions[i].id < app.next_session_id);
        if j < app.sessions.len() {
            assert(after.sessions[j] == app.sessions[j]);
        }
    }
}

/// Typing and pasting touch no session but the active one, and no name or layout of a group.
pub proof fn typing_touches_only_the_active_session(
    app: AppView,
    key: KeyEvent,
    pasted: Seq<char>,
    now: u64,
    i: int,
)
    requires
        0 <= i < app.sessions.len(),
        i != app.active,
    ensures
        input::typed_in(app, key, now).sessions[i] == app.sessions[i],
        input::pasted_in(app, pasted, now).sessions[i] == app.sessions[i],
        input::typed_in(app, key, now) == (AppView {
            sessions: input::typed_in(app, key, now).sessions,
            ..app
        }),
        input::pasted_in(app, pasted, now) == (AppView {
            sessions: input::pasted_in(app, pasted, now).sessions,
            ..app
        }),
{
}

/// Only presses of keys count.
pub proof fn only_presses_count(app: AppView, key: KeyEvent, now: u64)
    requires
        key.kind != KeyEventKind::Press,
    ensures
        input::keyed(app, key, now).0 == app,
        input::keyed(app, key, now).1 is Idle,
{
}

/// A name that was given to a tab is shown until it is cleared; then the last command is shown
/// again.
pub proof fn given_names_are_shown_until_cleared(app: AppView, index: int, value: Seq<char>)
    requires
        0 <= index < app.sessions.len(),
        session::position_of(app.sessions, app.sessions[index].id) == Some(index),
        text::trimmed(value).len() > 0,
    ensures
        ({
            let id = app.sessions[index].id;
            let named = input::renamed(app, id, input::typed_name(value));
            &&& session::session_name(named.sessions[index]) == text::trimmed(value)
            &&& session::session_name(
                menu::applied(named, index, MenuAction::ClearName, 0).sessions[index],
            ) == labels::tab_name(None, app.sessions[index].last_command)
        }),
{
}

/// On a screen of fewer than 72 columns the sidebar is collapsed; on a wider one it is, if the user
/// collapsed it.
pub proof fn narrow_screens_collapse_the_sidebar(app: AppView, area: Rect)
    ensures
        area.width < 72 ==> app::sized(app, area).sidebar_collapsed,
        area.width >= 72 ==> app::sized(app, area).sidebar_collapsed == app.manual_collapse,
{
}

/// On a wide screen, the button that collapses the sidebar expands it again.
pub proof fn toggling_twice_changes_nothing(app: AppView)
    requires
        app.last_area.width >= MOBILE_THRESHOLD,
        app.sidebar_collapsed == app.manual_collapse,
    ensures
        input::toggled(app).sidebar_collapsed == !app.sidebar_collapsed,
        input::toggled(input::toggled(app)) == app,
{
}

/// Names and layouts are kept only for groups that a session is in, after any step that takes a
/// session out of its group.
pub proof fn only_groups_in_use_are_kept(app: AppView, index: int, group: u64)
    requires
        0 <= index < app.sessions.len(),
    ensures
        ({
            let after = menu::applied(app, index, MenuAction::RemoveFromGroup, 0);
            (after.group_names.contains_key(group) || after.group_layouts.contains_key(group))
                ==> groups::in_use(after.sessions, group)
        }),
        app.sessions.len() > 1 ==> ({
            let after = groups::closed(app, index);
            (after.group_names.contains_key(group) || after.group_layouts.contains_key(group))
                ==> groups::in_use(after.sessions, group)
        }),
{
}

/// After a group was dissolved, no session is in it, and it has no name and no layout.
pub proof fn dissolved_groups_are_gone(app: AppView, index: int, group: u64, now: u64)
    ensures
        ({
            let after = menu::applied(app, index, MenuAction::Ungroup(group), now);
            &&& !groups::in_use(after.sessions, group)
            &&& !after.group_names.contains_key(group)
            &&& !after.group_layouts.contains_key(group)
        }),
{
    let after = menu::applied(app, index, MenuAction::Ungroup(group), now);
    assert forall|i: int| 0 <= i < after.sessions.len() implies (#[trigger] after.sessions[i]).group
        != Some(group) by {}
}

/// A pane that was placed beside another one is in its group and in the layout of the group.
pub proof fn placed_panes_share_a_group(app: AppView, target: u64, pane: u64, axis: SplitAxis)
    requires
        target != pane,
        session::position_of(app.sessions, target) is Some,
        session::position_of(app.sessions, pane) is Some,
        groups::can_place(app, target),
    ensures
        ({
            let after = groups::placed_relative(app, target, pane, axis);
            let beside = after.sessions[session::position_of(app.sessions, pane)->0].group;
            &&& beside is Some
            &&& after.sessions[session::position_of(app.sessions, target)->0].group == beside
            &&& after.group_layouts.contains_key(beside->0)
            &&& layout::leaves(after.group_layouts[beside->0]).contains(pane)
        }),
{
    let place = session::position_of(app.sessions, target)->0;
    session::lemma_position(app.sessions, target, 0);
    match app.sessions[place].group {
        Some(group) => lemma_placed_in_group(app, group, target, pane, axis),
        None => {
            let grouped = groups::with_group(app, place);
            session::lemma_same_ids(app.sessions, grouped.sessions, pane, 0);
            session::lemma_same_ids(app.sessions, grouped.sessions, target, 0);
            lemma_placed_in_group(grouped, app.next_group_id, target, pane, axis);
        },
    }
}

proof fn lemma_placed_in_group(
    app: AppView,
    group: u64,
    target: u64,
    pane: u64,
    axis: SplitAxis,
)
    requires
        target != pane,
        session::position_of(app.sessions, target) is Some,
        session::position_of(app.sessions, pane) is Some,
        app.sessions[session::position_of(app.sessions, target)->0].group == Some(group),
    ensures
        ({
            let after = groups::placed(app, group, target, pane, axis);
            &&& after.sessions[session::position_of(app.sessions, pane)->0].group == Some(group)
            &&& after.sessions[session::position_of(app.sessions, target)->0].group == Some(group)
            &&& after.group_layouts.contains_key(group)
            &&& layout::leaves(after.group_layouts[group]).contains(pane)
        }),
{
    let index = session::position_of(app.sessions, pane)->0;
    let place = session::position_of(app.sessions, target)->0;
    session::lemma_position(app.sessions, pane, 0);
    session::lemma_position(app.sessions, target, 0);
    let after = groups::placed(app, group, target, pane, axis);
    assert(after.sessions[index].group == Some(group));
    assert(groups::in_use(after.sessions, group));
    let layouts = groups::leaf_dropped(app.group_layouts, app.sessions[index].group, pane);
    let others = groups::regrouped(app.sessions, index, None);
    let apart = AppView { sessions: others, group_layouts: layouts, ..app };
    lemma_beside_holds_pane(app::layout_of(apart, group), target, pane, axis);
}

proof fn lemma_beside_holds_pane(layout: PaneLayout, target: u64, pane: u64, axis: SplitAxis)
    ensures
        layout::leaves(groups::beside(layout, target, pane, axis)).contains(pane),
    decreases layout,
{
    let all = layout::leaves(groups::beside(layout, target, pane, axis));
    if !layout::leaves(layout).contains(target) {
        reveal_with_fuel(layout::leaves, 2);
        assert(all[all.len() - 1] == pane);
    } else {
        match layout {
            PaneLayout::Leaf(id) => {
                reveal_with_fuel(layout::leaves, 2);
                assert(layout::leaves(layout)[0] == id);
                assert(all[1] == pane);
            },
            PaneLayout::Split { axis: own, ratio, first, second } => {
                let left = layout::leaves(*first);
                let right = layout::leaves(*second);
                if left.contains(target) {
                    lemma_beside_holds_pane(*first, target, pane, axis);
                    let part = layout::leaves(layout::with_pane(*first, target, pane, axis));
                    let i = choose|i: int| 0 <= i < part.len() && part[i] == pane;
                    assert(all == part + right);
                    assert(all[i] == pane);
                } else {
                    assert(right.contains(target)) by {
                        let i = choose|i: int|
                            0 <= i < (left + right).len() && (left + right)[i] == target;
                        if i < left.len() {
                            assert(left[i] == target);
                        } else {
                            assert(right[i - left.len()] == target);
                        }
                    }
                    lemma_beside_holds_pane(*second, target, pane, axis);
                    let part = layout::leaves(layout::with_pane(*second, target, pane, axis));
                    let i = choose|i: int| 0 <= i < part.len() && part[i] == pane;
                    assert(all == left + part);
                    assert(all[left.len() + i] == pane);
                }
            },
        }
    }
}

/// An open menu lies on the screen, wherever that has room for it.
pub proof fn menus_stay_on_the_screen(
    entries: Seq<(Seq<char>, MenuAction)>,
    screen: Rect,
    x: int,
    y: int,
)
    requires
        0 <= x <= u16::MAX,
        0 <= y <= u16::MAX,
        entries.len() + 2 <= screen.height,
    ensures
        ({
            let area = menu::menu_area(entries, screen, x, y);
            &&& area.x + area.width <= screen.width
            &&& area.y + area.height <= screen.height
            &&& area.height == entries.len() + 2
        }),
{
}

/// A dragged divider leaves at least ten percent to each part.
pub proof fn dragged_dividers_leave_both_parts(
    hit: layout::SplitHitView,
    x: int,
    y: int,
)
    ensures
        10 <= mouse::dragged_ratio(hit, x, y) <= 90,
{
}

/// Whatever the mouse does, it can be handled in a sound workspace whose screen is current, as long
/// as there is a number for a new group.
pub proof fn the_mouse_can_always_be_handled(app: AppView, event: MouseEvent)
    requires
        is_sound(app),
        hits_are_current(app),
        app.next_group_id < u64::MAX,
    ensures
        mouse::can_handle(app, event),
{
    let x = event.column as int;
    let y = event.row as int;
    lemma_hit_bounds(mouse::areas_of(app.hits.panes), x, y, 0);
}

/// The rectangles of the workspace are the same.
spec fn same_places(a: AppView, b: AppView) -> bool {
    a.hits == b.hits && a.last_area == b.last_area && a.context_menu == b.context_menu
}

proof fn lemma_request_places(app: AppView, index: int, now: u64)
    ensures
        same_places(groups::closed(app, index), app),
        same_places(groups::close_requested(app, index, now), app),
{
}

proof fn lemma_placed_places(app: AppView, group: u64, target: u64, pane: u64, axis: SplitAxis)
    ensures
        same_places(groups::placed(app, group, target, pane, axis), app),
{
}

proof fn lemma_prefix_places(app: AppView, key: KeyEvent, now: u64)
    ensures
        same_places(input::prefixed(app, key, now).0, app),
{
    lemma_request_places(app, app.active as int, now);
}

proof fn lemma_menu_places(app: AppView, session_id: u64, action: MenuAction, now: u64)
    ensures
        same_places(menu::menu_applied(app, session_id, action, now), app),
{
    if let Some(index) = session::position_of(app.sessions, session_id) {
        lemma_request_places(app, index, now);
        if let MenuAction::PlaceRelative { target, pane, axis } = action {
            if let Some(place) = session::position_of(app.sessions, target) {
                match app.sessions[place].group {
                    Some(group) => lemma_placed_places(app, group, target, pane, axis),
                    None => lemma_placed_places(
                        groups::with_group(app, place),
                        app.next_group_id,
                        target,
                        pane,
                        axis,
                    ),
                }
            }
        }
    }
}

/// A key changes no rectangle of the workspace.
#[verifier::rlimit(40)]
pub proof fn keys_keep_rectangles(app: AppView, key: KeyEvent, now: u64)
    ensures
        ({
            let after = input::keyed(app, key, now).0;
            after.hits == app.hits && after.last_area == app.last_area && after.context_menu
                == app.context_menu
        }),
{
    let current = input::prefix_expired(app, now);
    lemma_prefix_places(AppView { prefix_started: None, ..current }, key, now);
    if let InputModeView::ConfirmClose { session_id } = app.input_mode {
        if let Some(index) = session::position_of(app.sessions, session_id) {
            lemma_request_places(current, index, now);
        }
    }
}

/// The mouse keeps the rectangles of the workspace valid.
#[verifier::rlimit(40)]
pub proof fn the_mouse_keeps_rectangles_valid(app: AppView, event: MouseEvent, now: u64)
    requires
        app.wf(),
    ensures
        mouse::moused(app, event, now).0.wf(),
{
    let x = event.column as int;
    let y = event.row as int;
    match app.input_mode {
        InputModeView::ConfirmClose { session_id } => {
            if let Some(index) = session::position_of(app.sessions, session_id) {
                lemma_request_places(app, index, now);
            }
        },
        _ => match app.context_menu {
            Some(menu) => {
                let shut = AppView { context_menu: None, ..app };
                if let Some(action) = mouse::entry_at(menu, x, y) {
                    lemma_menu_places(shut, menu.session_id, action, now);
                }
            },
            None => {
                if let Some(index) = mouse::closing_tab(app, x, y) {
                    lemma_request_places(app, index as int, now);
                }
                if let Some(index) = mouse::tab_at(app, x, y) {
                    lemma_menu_rect(menu::tab_entries(app, index as int), app.last_area, x, y);
                }
                if let Some(group) = mouse::header_at(app, x, y) {
                    lemma_menu_rect(menu::group_entries(app, group), app.last_area, x, y);
                }
            },
        },
    }
}

proof fn lemma_menu_rect(entries: Seq<(Seq<char>, MenuAction)>, screen: Rect, x: int, y: int)
    requires
        0 <= x <= u16::MAX,
        0 <= y <= u16::MAX,
    ensures
        menu::menu_area(entries, screen, x, y).wf(),
{
}

/// On a narrow screen the sidebar is collapsed.
pub open spec fn sidebar_fits(app: AppView) -> bool {
    app.last_area.width < MOBILE_THRESHOLD ==> app.sidebar_collapsed
}

/// The screen has the same size, and the sidebar still fits it.
spec fn keeps_sidebar(a: AppView, b: AppView) -> bool {
    b.last_area == a.last_area && (sidebar_fits(a) ==> sidebar_fits(b))
}

proof fn lemma_request_keeps_sidebar(app: AppView, index: int, now: u64)
    ensures
        keeps_sidebar(app, groups::closed(app, index)),
        keeps_sidebar(app, groups::close_requested(app, index, now)),
{
}

proof fn lemma_placed_keeps_sidebar(
    app: AppView,
    group: u64,
    target: u64,
    pane: u64,
    axis: SplitAxis,
)
    ensures
        keeps_sidebar(app, groups::placed(app, group, target, pane, axis)),
{
}

proof fn lemma_prefix_keeps_sidebar(app: AppView, key: KeyEvent, now: u64)
    ensures
        keeps_sidebar(app, input::prefixed(app, key, now).0),
{
    lemma_request_keeps_sidebar(app, app.active as int, now);
}

proof fn lemma_menu_keeps_sidebar(app: AppView, session_id: u64, action: MenuAction, now: u64)
    ensures
        keeps_sidebar(app, menu::menu_applied(app, session_id, action, now)),
{
    if let Some(index) = session::position_of(app.sessions, session_id) {
        lemma_request_keeps_sidebar(app, index, now);
        if let MenuAction::PlaceRelative { target, pane, axis } = action {
            if let Some(place) = session::position_of(app.sessions, target) {
                match app.sessions[place].group {
                    Some(group) => lemma_placed_keeps_sidebar(app, group, target, pane, axis),
                    None => lemma_placed_keeps_sidebar(
                        groups::with_group(app, place),
                        app.next_group_id,
                        target,
                        pane,
                        axis,
                    ),
                }
            }
        }
    }
}

/// No key expands the sidebar on a screen of fewer than 72 columns.
#[verifier::rlimit(40)]
pub proof fn keys_keep_the_sidebar_collapsed(app: AppView, key: KeyEvent, now: u64)
    requires
        app.last_area.width < 72 ==> app.sidebar_collapsed,
    ensures
        ({
            let after = input::keyed(app, key, now).0;
            after.last_area.width < 72 ==> after.sidebar_collapsed
        }),
{
    let current = input::prefix_expired(app, now);
    lemma_prefix_keeps_sidebar(AppView { prefix_started: None, ..current }, key, now);
    if let InputModeView::ConfirmClose { session_id } = app.input_mode {
        if let Some(index) = session::position_of(app.sessions, session_id) {
            lemma_request_keeps_sidebar(current, index, now);
        }
    }
}

/// No mouse event expands the sidebar on a screen of fewer than 72 columns.
#[verifier::rlimit(40)]
pub proof fn the_mouse_keeps_the_sidebar_collapsed(app: AppView, event: MouseEvent, now: u64)
    requires
        app.last_area.width < 72 ==> app.sidebar_collapsed,
    ensures
        ({
            let after = mouse::moused(app, event, now).0;
            after.last_area.width < 72 ==> after.sidebar_collapsed
        }),
{
    let x = event.column as int;
    let y = event.row as int;
    match app.input_mode {
        InputModeView::ConfirmClose { session_id } => {
            if let Some(index) = session::position_of(app.sessions, session_id) {
                lemma_request_keeps_sidebar(app, index, now);
            }
        },
        _ => match app.context_menu {
            Some(menu) => {
                let shut = AppView { context_menu: None, ..app };
                if let Some(action) = mouse::entry_at(menu, x, y) {
                    lemma_menu_keeps_sidebar(shut, menu.session_id, action, now);
                }
            },
            None => {
                if let Some(index) = mouse::closing_tab(app, x, y) {
                    lemma_request_keeps_sidebar(app, index as int, now);
                }
            },
        },
    }
}

/// Neither pasting nor a new session expands the sidebar on a screen of fewer than 72 columns.
pub proof fn other_steps_keep_the_sidebar_collapsed(
    app: AppView,
    pasted: Seq<char>,
    cwd: Seq<u8>,
    shell_pid: Option<u32>,
    now: u64,
)
    requires
        app.last_area.width < 72 ==> app.sidebar_collapsed,
    ensures
        ({
            let after = input::pasted_in(app, pasted, now);
            after.last_area.width < 72 ==> after.sidebar_collapsed
        }),
        ({
            let after = app::with_session(app, cwd, shell_pid);
            after.last_area.width < 72 ==> after.sidebar_collapsed
        }),
{
}

/// The prefix key collapses an expanded sidebar and expands a collapsed one, on a screen of at
/// least 72 columns, and the next key follows it.
pub proof fn the_prefix_key_toggles_the_sidebar(app: AppView, key: KeyEvent, now: u64)
    requires
        key.kind == KeyEventKind::Press,
        key.code == KeyCode::Char('b'),
        key.modifiers.control,
        app.input_mode is Normal,
        !input::prefix_live(app, now),
    ensures
        ({
            let after = input::keyed(app, key, now).0;
            &&& app.last_area.width >= 72 ==> after.sidebar_collapsed == !app.sidebar_collapsed
            &&& after.prefix_started == Some(now)
            &&& after.sessions == app.sessions
            &&& input::keyed(app, key, now).1 is Resize
        }),
{
}

} // verus!
