//! What clicks, drags and wheel steps do on the drawn screen.

use crate::app::{ActionView, AppView, ContextMenuView, InputModeView, MenuAction};
use crate::events::{MouseButton, MouseEvent, MouseEventKind};
use crate::geometry::Rect;
use crate::groups;
use crate::key_laws;
use crate::menu;
use crate::mouse;
use crate::session;
use crate::session::SessionView;
use crate::split_laws;
use vstd::prelude::*;

verus! {

/// The cell lies in the rectangle.
pub open spec fn covers(area: Rect, x: int, y: int) -> bool {
    &&& area.x <= x < area.x + area.width
    &&& area.y <= y < area.y + area.height
}

/// A rectangle whose edges fit in the coordinates holds the cells from its left and upper edge up
/// to its right and lower edge, and those edges not.
pub proof fn rectangles_hold_their_cells(area: Rect, x: int, y: int)
    requires
        area.wf(),
    ensures
        area.holds(x, y) == covers(area, x, y),
{
}

/// No divider is at the cell of an event.
pub open spec fn off_dividers(app: AppView, event: MouseEvent) -> bool {
    forall|i: int|
        0 <= i < app.hits.split_dividers.len() ==> !covers(
            (#[trigger] app.hits.split_dividers[i]).divider,
            event.column as int,
            event.row as int,
        )
}

/// The dividers have their edges within the coordinates.
pub open spec fn dividers_wf(app: AppView) -> bool {
    forall|i: int|
        0 <= i < app.hits.split_dividers.len() ==> (
        #[trigger] app.hits.split_dividers[i]).divider.wf()
}

/// A press of the left button, while neither a menu nor a question is open, that hits no divider.
pub open spec fn is_click(app: AppView, event: MouseEvent) -> bool {
    &&& event.kind == MouseEventKind::Down(MouseButton::Left)
    &&& split_laws::is_free(app)
    &&& app.wf()
    &&& dividers_wf(app)
    &&& off_dividers(app, event)
}

proof fn lemma_nothing_hit(areas: Seq<Rect>, x: int, y: int, from: int)
    requires
        0 <= from,
        forall|i: int| 0 <= i < areas.len() ==> !(#[trigger] areas[i]).holds(x, y),
    ensures
        mouse::first_hit(areas, x, y, from) is None,
    decreases areas.len() - from,
{
    if from < areas.len() {
        lemma_nothing_hit(areas, x, y, from + 1);
    }
}

proof fn lemma_no_divider(app: AppView, event: MouseEvent)
    requires
        dividers_wf(app),
        off_dividers(app, event),
    ensures
        mouse::divider_at(app, event.column as int, event.row as int) is None,
{
    let x = event.column as int;
    let y = event.row as int;
    let areas = mouse::divider_areas(app.hits.split_dividers);
    assert forall|i: int| 0 <= i < areas.len() implies !(#[trigger] areas[i]).holds(x, y) by {
        assert(areas[i] == app.hits.split_dividers[i].divider);
        assert(!covers(app.hits.split_dividers[i].divider, x, y));
    }
    lemma_nothing_hit(areas, x, y, 0);
}

/// A click on the plus starts a shell for a new tab and changes nothing.
pub proof fn the_plus_starts_a_shell(app: AppView, event: MouseEvent, now: u64)
    requires
        is_click(app, event),
        covers(app.hits.plus, event.column as int, event.row as int),
    ensures
        mouse::moused(app, event, now).0 == app,
        mouse::moused(app, event, now).1 matches ActionView::Spawn(request)
            && key_laws::is_new_shell(app, request),
{
    lemma_no_divider(app, event);
}

/// A click on the chevron collapses the expanded sidebar and expands the collapsed one, on a screen
/// of at least 72 columns.
pub proof fn the_chevron_toggles_the_sidebar(app: AppView, event: MouseEvent, now: u64)
    requires
        is_click(app, event),
        covers(app.hits.toggle, event.column as int, event.row as int),
        !covers(app.hits.plus, event.column as int, event.row as int),
    ensures
        ({
            let after = mouse::moused(app, event, now).0;
            &&& app.last_area.width >= 72 ==> after.sidebar_collapsed == !app.sidebar_collapsed
            &&& after.manual_collapse == !app.sidebar_collapsed
            &&& after.sessions == app.sessions
            &&& after.active == app.active
            &&& mouse::moused(app, event, now).1 is Resize
        }),
{
    lemma_no_divider(app, event);
}

/// The cell of a click hits neither the plus nor the chevron.
pub open spec fn off_buttons(app: AppView, event: MouseEvent) -> bool {
    &&& !covers(app.hits.plus, event.column as int, event.row as int)
    &&& !covers(app.hits.toggle, event.column as int, event.row as int)
}

/// A click on the close button of a tab asks to close the session of that tab.
pub proof fn close_buttons_close_their_tab(app: AppView, event: MouseEvent, k: int, now: u64)
    requires
        is_click(app, event),
        off_buttons(app, event),
        0 <= k < app.hits.tabs.len(),
        covers(app.hits.tabs[k].close, event.column as int, event.row as int),
        forall|j: int|
            0 <= j < k ==> !covers(
                (#[trigger] app.hits.tabs[j]).close,
                event.column as int,
                event.row as int,
            ),
    ensures
        mouse::moused(app, event, now).0 == groups::close_requested(
            app,
            app.hits.tabs[k].index as int,
            now,
        ),
        mouse::moused(app, event, now).1 == groups::close_request(
            app,
            app.hits.tabs[k].index as int,
            now,
        ),
{
    lemma_no_divider(app, event);
    let areas = mouse::close_areas(app.hits.tabs);
    split_laws::lemma_first_hit(areas, event.column as int, event.row as int, 0, k);
}

/// The cell of a click hits no close button.
pub open spec fn off_close_buttons(app: AppView, event: MouseEvent) -> bool {
    forall|j: int|
        0 <= j < app.hits.tabs.len() ==> !covers(
            (#[trigger] app.hits.tabs[j]).close,
            event.column as int,
            event.row as int,
        )
}

proof fn lemma_no_close_button(app: AppView, event: MouseEvent)
    requires
        app.wf(),
        off_close_buttons(app, event),
    ensures
        mouse::closing_tab(app, event.column as int, event.row as int) is None,
{
    let x = event.column as int;
    let y = event.row as int;
    let areas = mouse::close_areas(app.hits.tabs);
    assert forall|i: int| 0 <= i < areas.len() implies !(#[trigger] areas[i]).holds(x, y) by {
        assert(areas[i] == app.hits.tabs[i].close);
        assert(!covers(app.hits.tabs[i].close, x, y));
    }
    lemma_nothing_hit(areas, x, y, 0);
}

/// A click on a tab makes its session the active one and changes no session.
pub proof fn clicks_on_tabs_select_them(app: AppView, event: MouseEvent, k: int, now: u64)
    requires
        is_click(app, event),
        off_buttons(app, event),
        off_close_buttons(app, event),
        0 <= k < app.hits.tabs.len(),
        covers(app.hits.tabs[k].body, event.column as int, event.row as int),
        forall|j: int|
            0 <= j < k ==> !covers(
                (#[trigger] app.hits.tabs[j]).body,
                event.column as int,
                event.row as int,
            ),
    ensures
        ({
            let after = mouse::moused(app, event, now).0;
            &&& after.active == app.hits.tabs[k].index
            &&& after.sessions == app.sessions
            &&& after.group_layouts == app.group_layouts
            &&& mouse::moused(app, event, now).1 is Resize
        }),
{
    lemma_no_divider(app, event);
    lemma_no_close_button(app, event);
    let areas = mouse::body_areas(app.hits.tabs);
    split_laws::lemma_first_hit(areas, event.column as int, event.row as int, 0, k);
}

/// The cell of an event hits no tab.
pub open spec fn off_tabs(app: AppView, event: MouseEvent) -> bool {
    forall|j: int|
        0 <= j < app.hits.tabs.len() ==> !covers(
            (#[trigger] app.hits.tabs[j]).body,
            event.column as int,
            event.row as int,
        )
}

proof fn lemma_no_tab(app: AppView, event: MouseEvent)
    requires
        app.wf(),
        off_tabs(app, event),
    ensures
        mouse::tab_at(app, event.column as int, event.row as int) is None,
{
    let x = event.column as int;
    let y = event.row as int;
    let areas = mouse::body_areas(app.hits.tabs);
    assert forall|i: int| 0 <= i < areas.len() implies !(#[trigger] areas[i]).holds(x, y) by {
        assert(areas[i] == app.hits.tabs[i].body);
        assert(!covers(app.hits.tabs[i].body, x, y));
    }
    lemma_nothing_hit(areas, x, y, 0);
}

/// The pane at a place is the first one at the cell of an event.
pub open spec fn is_pane_under(app: AppView, event: MouseEvent, k: int) -> bool {
    &&& 0 <= k < app.hits.panes.len()
    &&& covers(app.hits.panes[k].1, event.column as int, event.row as int)
    &&& forall|j: int|
        0 <= j < k ==> !covers(
            (#[trigger] app.hits.panes[j]).1,
            event.column as int,
            event.row as int,
        )
}

proof fn lemma_pane_under(app: AppView, event: MouseEvent, k: int)
    requires
        app.wf(),
        is_pane_under(app, event, k),
    ensures
        mouse::pane_at(app, event.column as int, event.row as int) == Some(app.hits.panes[k]),
{
    let areas = mouse::areas_of(app.hits.panes);
    assert(areas[k] == app.hits.panes[k].1);
    assert(app.hits.panes[k].1.wf());
    assert forall|j: int| 0 <= j < k implies !(#[trigger] areas[j]).holds(
        event.column as int,
        event.row as int,
    ) by {
        assert(app.hits.panes[j].1.wf());
    }
    split_laws::lemma_first_hit(areas, event.column as int, event.row as int, 0, k);
}

/// A click on a pane makes its session the active one and changes nothing else.
pub proof fn clicks_on_panes_move_the_focus(app: AppView, event: MouseEvent, k: int, now: u64)
    requires
        is_click(app, event),
        off_buttons(app, event),
        off_close_buttons(app, event),
        off_tabs(app, event),
        is_pane_under(app, event, k),
    ensures
        mouse::moused(app, event, now).0 == (AppView { active: app.hits.panes[k].0, ..app }),
        mouse::moused(app, event, now).1 is Idle,
{
    lemma_no_divider(app, event);
    lemma_no_close_button(app, event);
    lemma_no_tab(app, event);
    lemma_pane_under(app, event, k);
}

/// A wheel step goes to the pane below the mouse, with the row and column of the cell in that pane,
/// and makes its session the active one.
pub proof fn wheel_steps_go_to_the_pane_below(app: AppView, event: MouseEvent, k: int, now: u64)
    requires
        event.kind == MouseEventKind::ScrollUp || event.kind == MouseEventKind::ScrollDown,
        split_laws::is_free(app),
        app.wf(),
        is_pane_under(app, event, k),
    ensures
        mouse::moused(app, event, now).0 == (AppView { active: app.hits.panes[k].0, ..app }),
        mouse::moused(app, event, now).1 matches ActionView::Wheel { index, up, column, row }
            && index == app.hits.panes[k].0 && up == (event.kind == MouseEventKind::ScrollUp)
            && app.hits.panes[k].1.x + column == event.column && app.hits.panes[k].1.y + row
            == event.row,
{
    lemma_pane_under(app, event, k);
}

/// A press of the right button on a tab opens the menu of its session.
pub proof fn right_clicks_on_tabs_open_their_menu(
    app: AppView,
    event: MouseEvent,
    k: int,
    now: u64,
)
    requires
        event.kind == MouseEventKind::Down(MouseButton::Right),
        split_laws::is_free(app),
        app.wf(),
        0 <= k < app.hits.tabs.len(),
        app.hits.tabs[k].index < app.sessions.len(),
        covers(app.hits.tabs[k].body, event.column as int, event.row as int),
        forall|j: int|
            0 <= j < k ==> !covers(
                (#[trigger] app.hits.tabs[j]).body,
                event.column as int,
                event.row as int,
            ),
    ensures
        ({
            let after = mouse::moused(app, event, now).0;
            let index = app.hits.tabs[k].index as int;
            &&& mouse::moused(app, event, now).1 is Idle
            &&& after.context_menu matches Some(opened) && opened.session_id
                == app.sessions[index].id && opened.entries == menu::tab_entries(app, index)
            &&& after == (AppView { context_menu: after.context_menu, ..app })
        }),
{
    let areas = mouse::body_areas(app.hits.tabs);
    split_laws::lemma_first_hit(areas, event.column as int, event.row as int, 0, k);
}

/// A press of the right button on the name of a group opens the menu of the group, and one on
/// neither a tab nor such a name does nothing.
pub proof fn right_clicks_on_headings_open_their_menu(
    app: AppView,
    event: MouseEvent,
    k: int,
    first: int,
    now: u64,
)
    requires
        event.kind == MouseEventKind::Down(MouseButton::Right),
        split_laws::is_free(app),
        app.wf(),
        off_tabs(app, event),
    ensures
        ({
            let (after, left) = mouse::moused(app, event, now);
            let x = event.column as int;
            let y = event.row as int;
            &&& left is Idle
            &&& 0 <= k < app.hits.groups.len() && covers(app.hits.groups[k].1, x, y) && (forall|
                j: int,
            |
                0 <= j < k ==> !covers((#[trigger] app.hits.groups[j]).1, x, y)) && 0 <= first
                < app.sessions.len() && app.sessions[first].group == Some(app.hits.groups[k].0)
                ==> (after.context_menu matches Some(opened) && opened.entries
                == menu::group_entries(app, app.hits.groups[k].0) && after == (AppView {
                context_menu: after.context_menu,
                ..app
            }))
            &&& (forall|j: int|
                0 <= j < app.hits.groups.len() ==> !covers(
                    (#[trigger] app.hits.groups[j]).1,
                    x,
                    y,
                )) ==> after == app
        }),
{
    let x = event.column as int;
    let y = event.row as int;
    lemma_no_tab(app, event);
    let areas = mouse::areas_of(app.hits.groups);
    if 0 <= k < app.hits.groups.len() && covers(app.hits.groups[k].1, x, y) && (forall|j: int|
        0 <= j < k ==> !covers((#[trigger] app.hits.groups[j]).1, x, y)) {
        assert(app.hits.groups[k].1.wf());
        assert forall|j: int| 0 <= j < k implies !(#[trigger] areas[j]).holds(x, y) by {
            assert(!covers(app.hits.groups[j].1, x, y));
            assert(app.hits.groups[j].1.wf());
        }
        split_laws::lemma_first_hit(areas, x, y, 0, k);
        if 0 <= first < app.sessions.len() && app.sessions[first].group == Some(
            app.hits.groups[k].0,
        ) {
            lemma_first_member(app.sessions, app.hits.groups[k].0, 0, first);
        }
    }
    if forall|j: int|
        0 <= j < app.hits.groups.len() ==> !covers((#[trigger] app.hits.groups[j]).1, x, y) {
        assert forall|j: int| 0 <= j < areas.len() implies !(#[trigger] areas[j]).holds(x, y) by {
            assert(!covers(app.hits.groups[j].1, x, y));
            assert(app.hits.groups[j].1.wf());
        }
        lemma_nothing_hit(areas, x, y, 0);
    }
}

proof fn lemma_first_member(sessions: Seq<SessionView>, group: u64, from: int, some: int)
    requires
        0 <= from <= some < sessions.len(),
        sessions[some].group == Some(group),
    ensures
        menu::first_member(sessions, group, from) is Some,
    decreases some - from,
{
    if sessions[from].group != Some(group) {
        lemma_first_member(sessions, group, from + 1, some);
    }
}

/// The middle button, moves, and drags and releases of other buttons than the left one do nothing.
pub proof fn other_events_do_nothing(app: AppView, event: MouseEvent, now: u64)
    requires
        event.kind is Other || event.kind == MouseEventKind::Down(MouseButton::Middle) || (
        event.kind matches MouseEventKind::Drag(button) && !(button is Left)) || (
        event.kind matches MouseEventKind::Up(button) && !(button is Left)),
    ensures
        mouse::moused(app, event, now) == (app, ActionView::Idle),
{
}

/// A click on a row of an open menu carries out the entry of that row, for the session of the menu,
/// and shuts the menu. A click elsewhere only shuts it.
pub proof fn clicks_on_menu_rows_carry_them_out(
    app: AppView,
    open: ContextMenuView,
    event: MouseEvent,
    i: int,
    now: u64,
)
    requires
        event.kind == MouseEventKind::Down(MouseButton::Left),
        !(app.input_mode is ConfirmClose),
        app.context_menu == Some(open),
        open.area.wf(),
        open.area.height == open.entries.len() + 2,
    ensures
        ({
            let shut = AppView { context_menu: None, ..app };
            let inside = open.area.x <= event.column < open.area.x + open.area.width;
            &&& 0 <= i < open.entries.len() && inside && event.row == open.area.y + 1 + i ==> {
                &&& mouse::moused(app, event, now).0 == menu::menu_applied(
                    shut,
                    open.session_id,
                    open.entries[i].1,
                    now,
                )
                &&& mouse::moused(app, event, now).1 == menu::menu_applying(
                    shut,
                    open.session_id,
                    open.entries[i].1,
                    now,
                )
            }
            &&& !inside || event.row <= open.area.y || event.row >= open.area.y + open.area.height
                - 1 ==> mouse::moused(app, event, now) == (shut, ActionView::Idle)
        }),
{
}

/// While the close of a session is to be confirmed, a click on the first answer closes it, one on
/// the second does not, and every other click leaves the question open.
pub proof fn clicks_on_answers_settle_the_question(
    app: AppView,
    session_id: u64,
    event: MouseEvent,
    now: u64,
)
    requires
        app.input_mode == (InputModeView::ConfirmClose { session_id }),
        app.wf(),
    ensures
        ({
            let click = event.kind == MouseEventKind::Down(MouseButton::Left);
            let yes = covers(app.hits.confirm_yes, event.column as int, event.row as int);
            let no = covers(app.hits.confirm_no, event.column as int, event.row as int);
            let (after, left) = mouse::moused(app, event, now);
            &&& click && yes ==> after.input_mode is Normal && match session::position_of(
                app.sessions,
                session_id,
            ) {
                Some(index) => after.sessions == groups::closed(app, index).sessions
                    && after.active == groups::closed(app, index).active && after.exit_requested
                    == groups::closed(app, index).exit_requested && left == groups::closing(
                    app,
                    index,
                ),
                None => after.sessions == app.sessions && left is Idle,
            }
            &&& click && no && !yes ==> after == (AppView {
                input_mode: InputModeView::Normal,
                ..app
            }) && left is Idle
            &&& !click || !yes && !no ==> after == app && left is Idle
        }),
{
}

/// A menu opens where the mouse is, wherever it has room there. It is three columns wider than its
/// longest label, but at least 24 columns and no wider than the screen.
pub proof fn menus_open_at_the_mouse(
    entries: Seq<(Seq<char>, MenuAction)>,
    screen: Rect,
    x: int,
    y: int,
)
    requires
        0 <= x < screen.width,
        0 <= y < screen.height,
        entries.len() + 2 <= screen.height,
    ensures
        ({
            let area = menu::menu_area(entries, screen, x, y);
            &&& area.width <= screen.width
            &&& screen.width >= 24 ==> area.width >= 24
            &&& forall|i: int|
                0 <= i < entries.len() ==> area.width == screen.width
                    || vstd::utf8::encode_utf8(#[trigger] entries[i].0).len() + 3 <= area.width
            &&& area.width == screen.width || area.width == 24 || exists|i: int|
                0 <= i < entries.len() && vstd::utf8::encode_utf8(#[trigger] entries[i].0).len() + 3
                    == area.width
            &&& x + area.width <= screen.width ==> area.x == x
            &&& x + area.width > screen.width ==> area.x + area.width == screen.width
            &&& y + entries.len() + 2 <= screen.height ==> area.y == y
            &&& y + entries.len() + 2 > screen.height ==> area.y + area.height == screen.height
        }),
{
    assert forall|i: int| 0 <= i < entries.len() implies vstd::utf8::encode_utf8(
        #[trigger] entries[i].0,
    ).len() <= menu::longest(entries) by {
        lemma_longest(entries, i);
    }
    let i = lemma_some_longest(entries);
}

proof fn lemma_some_longest(entries: Seq<(Seq<char>, MenuAction)>) -> (i: int)
    ensures
        entries.len() == 0 ==> menu::longest(entries) == 0,
        entries.len() > 0 ==> 0 <= i < entries.len() && vstd::utf8::encode_utf8(
            entries[i].0,
        ).len() == menu::longest(entries),
    decreases entries.len(),
{
    if entries.len() == 0 {
        0
    } else {
        let i = lemma_some_longest(entries.drop_last());
        if menu::longest(entries) == vstd::utf8::encode_utf8(entries.last().0).len() {
            entries.len() - 1
        } else {
            assert(entries.drop_last()[i] == entries[i]);
            i
        }
    }
}

proof fn lemma_longest(entries: Seq<(Seq<char>, MenuAction)>, i: int)
    requires
        0 <= i < entries.len(),
    ensures
        vstd::utf8::encode_utf8(entries[i].0).len() <= menu::longest(entries),
    decreases entries.len(),
{
    if i < entries.len() - 1 {
        assert(entries.drop_last()[i] == entries[i]);
        lemma_longest(entries.drop_last(), i);
    }
}

} // verus!
