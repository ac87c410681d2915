//! What the mouse does.

use crate::app;
use crate::app::{
    Action, ActionView, App, AppView, ContextMenu, InputMode, InputModeView, MenuAction, TabHit,
};
use crate::events::{MouseButton, MouseEvent, MouseEventKind};
use crate::geometry;
use crate::geometry::{contains, Rect};
use crate::groups;
use crate::input;
use crate::layout;
use crate::layout::{layout_at_path_mut, PaneLayout, SplitAxis, SplitHit, SplitHitView};
use crate::menu;
use crate::session::session_position;
use vstd::prelude::*;

verus! {

/// The place of the first rectangle, from `from` on, that holds the cell at column `x` and row `y`.
pub open spec fn first_hit(areas: Seq<Rect>, x: int, y: int, from: int) -> Option<int>
    decreases areas.len() - from,
{
    if from < 0 || from >= areas.len() {
        None
    } else if areas[from].holds(x, y) {
        Some(from)
    } else {
        first_hit(areas, x, y, from + 1)
    }
}

pub open spec fn close_areas(tabs: Seq<TabHit>) -> Seq<Rect> {
    Seq::new(tabs.len(), |i: int| tabs[i].close)
}

pub open spec fn body_areas(tabs: Seq<TabHit>) -> Seq<Rect> {
    Seq::new(tabs.len(), |i: int| tabs[i].body)
}

pub open spec fn areas_of<T>(list: Seq<(T, Rect)>) -> Seq<Rect> {
    Seq::new(list.len(), |i: int| list[i].1)
}

pub open spec fn divider_areas(hits: Seq<SplitHitView>) -> Seq<Rect> {
    Seq::new(hits.len(), |i: int| hits[i].divider)
}

/// The session of the tab whose close button is at a cell.
pub open spec fn closing_tab(app: AppView, x: int, y: int) -> Option<usize> {
    match first_hit(close_areas(app.hits.tabs), x, y, 0) {
        Some(i) => Some(app.hits.tabs[i].index),
        None => None,
    }
}

/// The session of the tab at a cell.
pub open spec fn tab_at(app: AppView, x: int, y: int) -> Option<usize> {
    match first_hit(body_areas(app.hits.tabs), x, y, 0) {
        Some(i) => Some(app.hits.tabs[i].index),
        None => None,
    }
}

/// The pane at a cell.
pub open spec fn pane_at(app: AppView, x: int, y: int) -> Option<(usize, Rect)> {
    match first_hit(areas_of(app.hits.panes), x, y, 0) {
        Some(i) => Some(app.hits.panes[i]),
        None => None,
    }
}

/// The group whose header is at a cell.
pub open spec fn header_at(app: AppView, x: int, y: int) -> Option<u64> {
    match first_hit(areas_of(app.hits.groups), x, y, 0) {
        Some(i) => Some(app.hits.groups[i].0),
        None => None,
    }
}

/// The divider at a cell.
pub open spec fn divider_at(app: AppView, x: int, y: int) -> Option<SplitHitView> {
    match first_hit(divider_areas(app.hits.split_dividers), x, y, 0) {
        Some(i) => Some(app.hits.split_dividers[i]),
        None => None,
    }
}

/// The entry of the open menu at a cell, if it is inside the frame of the menu.
pub open spec fn entry_at(menu: app::ContextMenuView, x: int, y: int) -> Option<MenuAction> {
    let row = y - menu.area.y - 1;
    if menu.area.holds(x, y) && menu.area.y < y < geometry::minus(menu.area.bottom_edge(), 1) && row
        < menu.entries.len() {
        Some(menu.entries[row].1)
    } else {
        None
    }
}

/// The share of the first part, in percent, when a divider is dragged to a cell. Each part keeps
/// ten percent.
pub open spec fn dragged_ratio(hit: SplitHitView, x: int, y: int) -> int {
    let (value, total) = match hit.axis {
        SplitAxis::Horizontal => (
            geometry::minus(x, hit.container.x as int),
            hit.container.width as int,
        ),
        SplitAxis::Vertical => (
            geometry::minus(y, hit.container.y as int),
            hit.container.height as int,
        ),
    };
    geometry::lesser(
        geometry::greater(value * 100 / geometry::greater(total, 1), 10),
        90,
    )
}

/// The layout with the ratio of the split at a path replaced.
pub open spec fn with_ratio(layout: PaneLayout, path: Seq<bool>, ratio: int) -> PaneLayout {
    match layout::at_path(layout, path) {
        Some(PaneLayout::Split { axis, ratio: _, first, second }) => layout::replaced_at(
            layout,
            path,
            PaneLayout::Split { axis, ratio: ratio as u16, first, second },
        ),
        _ => layout,
    }
}

/// The dragged divider belongs to a split that still exists.
pub open spec fn drags(app: AppView) -> bool {
    &&& app.dragging_split matches Some(hit)
    &&& app.group_layouts.contains_key(hit.group)
    &&& layout::at_path(app.group_layouts[hit.group], hit.path) matches Some(part)
    &&& part is Split
}

/// The workspace after the dragged divider was moved to a cell.
pub open spec fn dragged(app: AppView, x: int, y: int) -> AppView {
    if drags(app) {
        let hit = app.dragging_split->0;
        app::refitted(
            AppView {
                group_layouts: app.group_layouts.insert(
                    hit.group,
                    with_ratio(
                        app.group_layouts[hit.group],
                        hit.path,
                        dragged_ratio(hit, x, y),
                    ),
                ),
                ..app
            },
        )
    } else {
        app
    }
}

/// The workspace after a press of the left button, and what is left to be done.
pub open spec fn left_pressed(app: AppView, x: int, y: int, now: u64) -> (AppView, ActionView) {
    if let Some(hit) = divider_at(app, x, y) {
        (AppView { dragging_split: Some(hit), ..app }, ActionView::Idle)
    } else if app.hits.plus.holds(x, y) {
        (app, ActionView::Spawn(app::new_session(app)))
    } else if app.hits.toggle.holds(x, y) {
        (input::toggled(app), ActionView::Resize)
    } else if let Some(index) = closing_tab(app, x, y) {
        (
            groups::close_requested(app, index as int, now),
            groups::close_request(app, index as int, now),
        )
    } else if let Some(index) = tab_at(app, x, y) {
        (app::refitted(AppView { active: index, ..app }), ActionView::Resize)
    } else if let Some(pane) = pane_at(app, x, y) {
        (AppView { active: pane.0, ..app }, ActionView::Idle)
    } else {
        (app, ActionView::Idle)
    }
}

/// The workspace after a press of the right button.
pub open spec fn right_pressed(app: AppView, x: int, y: int) -> AppView {
    if let Some(index) = tab_at(app, x, y) {
        menu::tab_menu_opened(app, index as int, x, y)
    } else if let Some(group) = header_at(app, x, y) {
        menu::group_menu_opened(app, group, x, y)
    } else {
        app
    }
}

/// The workspace after a wheel step, and what is left to be done.
pub open spec fn wheeled(app: AppView, up: bool, x: int, y: int) -> (AppView, ActionView) {
    match pane_at(app, x, y) {
        Some((index, area)) => (
            AppView { active: index, ..app },
            ActionView::Wheel {
                index,
                up,
                column: geometry::minus(x, area.x as int) as u16,
                row: geometry::minus(y, area.y as int) as u16,
            },
        ),
        None => (app, ActionView::Idle),
    }
}

/// The workspace after a mouse event while the close of a session is to be confirmed.
pub open spec fn confirm_moused(app: AppView, session_id: u64, mouse: MouseEvent) -> (
    AppView,
    ActionView,
) {
    if mouse.kind != MouseEventKind::Down(MouseButton::Left) {
        (app, ActionView::Idle)
    } else if app.hits.confirm_yes.holds(mouse.column as int, mouse.row as int) {
        input::close_confirmed(app, session_id)
    } else if app.hits.confirm_no.holds(mouse.column as int, mouse.row as int) {
        (input::back_to_normal(app), ActionView::Idle)
    } else {
        (app, ActionView::Idle)
    }
}

/// The workspace after a mouse event while a menu is open. A press of the left button closes it.
pub open spec fn menu_moused(
    app: AppView,
    menu: app::ContextMenuView,
    mouse: MouseEvent,
    now: u64,
) -> (AppView, ActionView) {
    if mouse.kind != MouseEventKind::Down(MouseButton::Left) {
        (app, ActionView::Idle)
    } else {
        let shut = AppView { context_menu: None, ..app };
        match entry_at(menu, mouse.column as int, mouse.row as int) {
            Some(action) => (
                menu::menu_applied(shut, menu.session_id, action, now),
                menu::menu_applying(shut, menu.session_id, action, now),
            ),
            None => (shut, ActionView::Idle),
        }
    }
}

/// The workspace after a mouse event while neither a menu nor a question is open.
pub open spec fn free_moused(app: AppView, mouse: MouseEvent, now: u64) -> (AppView, ActionView) {
    let x = mouse.column as int;
    let y = mouse.row as int;
    match mouse.kind {
        MouseEventKind::Drag(MouseButton::Left) => (
            dragged(app, x, y),
            input::resize_if(drags(app)),
        ),
        MouseEventKind::Up(MouseButton::Left) => (
            AppView { dragging_split: None, ..app },
            ActionView::Idle,
        ),
        MouseEventKind::Down(MouseButton::Left) => left_pressed(app, x, y, now),
        MouseEventKind::Down(MouseButton::Right) => (right_pressed(app, x, y), ActionView::Idle),
        MouseEventKind::ScrollUp => wheeled(app, true, x, y),
        MouseEventKind::ScrollDown => wheeled(app, false, x, y),
        _ => (app, ActionView::Idle),
    }
}

/// The workspace after a mouse event, and what is left to be done.
pub open spec fn moused(app: AppView, mouse: MouseEvent, now: u64) -> (AppView, ActionView) {
    match app.input_mode {
        InputModeView::ConfirmClose { session_id } => confirm_moused(app, session_id, mouse),
        _ => match app.context_menu {
            Some(menu) => menu_moused(app, menu, mouse, now),
            None => free_moused(app, mouse, now),
        },
    }
}

/// The event can be handled: the chosen entry of a menu can be carried out, the menu of the clicked
/// tab can be opened, and the pane under the wheel belongs to a session.
pub open spec fn can_handle(app: AppView, mouse: MouseEvent) -> bool {
    let x = mouse.column as int;
    let y = mouse.row as int;
    app.input_mode is ConfirmClose || match app.context_menu {
        Some(menu) => mouse.kind == MouseEventKind::Down(MouseButton::Left) ==> (entry_at(
            menu,
            x,
            y,
        ) matches Some(action) ==> menu::can_apply(
            AppView { context_menu: None, ..app },
            menu.session_id,
            action,
        )),
        None => match mouse.kind {
            MouseEventKind::Down(MouseButton::Right) => tab_at(app, x, y) matches Some(index)
                ==> menu::can_open(app, index as int),
            MouseEventKind::ScrollUp => pane_at(app, x, y) matches Some(pane) ==> pane.0
                < app.sessions.len(),
            MouseEventKind::ScrollDown => pane_at(app, x, y) matches Some(pane) ==> pane.0
                < app.sessions.len(),
            _ => true,
        },
    }
}

impl App {
    fn find_divider(&self, x: u16, y: u16) -> (r: Option<SplitHit>)
        ensures
            app::split_view(r) == divider_at(self@, x as int, y as int),
    {
        let ghost hits = self@.hits.split_dividers;
        let ghost areas = divider_areas(hits);
        let mut i: usize = 0;
        while i < self.hits.split_dividers.len()
            invariant
                hits == layout::split_hit_views(self.hits.split_dividers@),
                hits == self@.hits.split_dividers,
                areas == divider_areas(hits),
                i <= areas.len(),
                first_hit(areas, x as int, y as int, 0) == first_hit(
                    areas,
                    x as int,
                    y as int,
                    i as int,
                ),
            decreases areas.len() - i,
        {
            assert(hits[i as int] == self.hits.split_dividers@[i as int]@);
            if contains(self.hits.split_dividers[i].divider, x, y) {
                return Some(self.hits.split_dividers[i].clone());
            }
            i += 1;
        }
        None
    }

    fn find_closing_tab(&self, x: u16, y: u16) -> (r: Option<usize>)
        ensures
            r == closing_tab(self@, x as int, y as int),
    {
        let ghost areas = close_areas(self@.hits.tabs);
        let mut i: usize = 0;
        while i < self.hits.tabs.len()
            invariant
                areas == close_areas(self.hits.tabs@),
                i <= areas.len(),
                first_hit(areas, x as int, y as int, 0) == first_hit(
                    areas,
                    x as int,
                    y as int,
                    i as int,
                ),
            decreases areas.len() - i,
        {
            if contains(self.hits.tabs[i].close, x, y) {
                return Some(self.hits.tabs[i].index);
            }
            i += 1;
        }
        None
    }

    fn find_tab(&self, x: u16, y: u16) -> (r: Option<usize>)
        ensures
            r == tab_at(self@, x as int, y as int),
    {
        let ghost areas = body_areas(self@.hits.tabs);
        let mut i: usize = 0;
        while i < self.hits.tabs.len()
            invariant
                areas == body_areas(self.hits.tabs@),
                i <= areas.len(),
                first_hit(areas, x as int, y as int, 0) == first_hit(
                    areas,
                    x as int,
                    y as int,
                    i as int,
                ),
            decreases areas.len() - i,
        {
            if contains(self.hits.tabs[i].body, x, y) {
                return Some(self.hits.tabs[i].index);
            }
            i += 1;
        }
        None
    }

    fn find_pane(&self, x: u16, y: u16) -> (r: Option<(usize, Rect)>)
        ensures
            r == pane_at(self@, x as int, y as int),
    {
        let ghost areas = areas_of(self@.hits.panes);
        let mut i: usize = 0;
        while i < self.hits.panes.len()
            invariant
                areas == areas_of(self.hits.panes@),
                i <= areas.len(),
                first_hit(areas, x as int, y as int, 0) == first_hit(
                    areas,
                    x as int,
                    y as int,
                    i as int,
                ),
            decreases areas.len() - i,
        {
            if contains(self.hits.panes[i].1, x, y) {
                return Some(self.hits.panes[i]);
            }
            i += 1;
        }
        None
    }

    fn find_header(&self, x: u16, y: u16) -> (r: Option<u64>)
        ensures
            r == header_at(self@, x as int, y as int),
    {
        let ghost areas = areas_of(self@.hits.groups);
        let mut i: usize = 0;
        while i < self.hits.groups.len()
            invariant
                areas == areas_of(self.hits.groups@),
                i <= areas.len(),
                first_hit(areas, x as int, y as int, 0) == first_hit(
                    areas,
                    x as int,
                    y as int,
                    i as int,
                ),
            decreases areas.len() - i,
        {
            if contains(self.hits.groups[i].1, x, y) {
                return Some(self.hits.groups[i].0);
            }
            i += 1;
        }
        None
    }

    fn drag(&mut self, x: u16, y: u16) -> (r: Action)
        ensures
            final(self)@ == dragged(old(self)@, x as int, y as int),
            r@ == input::resize_if(drags(old(self)@)),
    {
        let ghost before = self@;
        let hit = match &self.dragging_split {
            Some(hit) => hit.clone(),
            None => return Action::Idle,
        };
        let mut layout = match self.group_layouts.remove(&hit.group) {
            Some(layout) => layout,
            None => {
                assert(self@.group_layouts =~= before.group_layouts);
                return Action::Idle;
            },
        };
        let ghost whole = layout;
        let value = match hit.axis {
            SplitAxis::Horizontal => x.saturating_sub(hit.container.x),
            SplitAxis::Vertical => y.saturating_sub(hit.container.y),
        };
        let extent = match hit.axis {
            SplitAxis::Horizontal => hit.container.width,
            SplitAxis::Vertical => hit.container.height,
        };
        let total: u32 = if extent > 1 { extent as u32 } else { 1 };
        let share: u32 = (value as u32 * 100) / total;
        let ratio: u16 = if share < 10 {
            10
        } else if share > 90 {
            90
        } else {
            share as u16
        };
        assert(ratio == dragged_ratio(hit@, x as int, y as int));
        let moved = set_ratio(&mut layout, &hit.path, ratio);
        let group = hit.group;
        self.group_layouts.insert(group, layout);
        if moved {
            assert(self@.group_layouts =~= before.group_layouts.insert(group, layout));
            self.refit();
            Action::Resize
        } else {
            assert(self@.group_layouts =~= before.group_layouts);
            Action::Idle
        }
    }

    fn press_left(&mut self, x: u16, y: u16, now: u64) -> (r: Action)
        ensures
            (final(self)@, r@) == left_pressed(old(self)@, x as int, y as int, now),
    {
        if let Some(hit) = self.find_divider(x, y) {
            self.dragging_split = Some(hit);
            return Action::Idle;
        }
        if contains(self.hits.plus, x, y) {
            return Action::Spawn(self.spawn_request());
        }
        if contains(self.hits.toggle, x, y) {
            self.toggle_sidebar();
            return Action::Resize;
        }
        if let Some(index) = self.find_closing_tab(x, y) {
            return self.request_close(index, now);
        }
        if let Some(index) = self.find_tab(x, y) {
            self.active = index;
            self.refit();
            return Action::Resize;
        }
        if let Some((index, _)) = self.find_pane(x, y) {
            self.active = index;
        }
        Action::Idle
    }

    fn press_right(&mut self, x: u16, y: u16)
        requires
            tab_at(old(self)@, x as int, y as int) matches Some(index) ==> menu::can_open(
                old(self)@,
                index as int,
            ),
        ensures
            final(self)@ == right_pressed(old(self)@, x as int, y as int),
    {
        if let Some(index) = self.find_tab(x, y) {
            self.open_context_menu(index, x, y);
        } else if let Some(group) = self.find_header(x, y) {
            self.open_group_context_menu(group, x, y);
        }
    }

    fn turn_wheel(&mut self, up: bool, x: u16, y: u16) -> (r: Action)
        ensures
            (final(self)@, r@) == wheeled(old(self)@, up, x as int, y as int),
    {
        match self.find_pane(x, y) {
            Some((index, area)) => {
                self.active = index;
                Action::Wheel {
                    index,
                    up,
                    column: x.saturating_sub(area.x),
                    row: y.saturating_sub(area.y),
                }
            },
            None => Action::Idle,
        }
    }

    fn click_menu(&mut self, mouse: MouseEvent, now: u64) -> (r: Action)
        requires
            old(self)@.context_menu is Some,
            !(old(self)@.input_mode is ConfirmClose),
            can_handle(old(self)@, mouse),
        ensures
            (final(self)@, r@) == menu_moused(
                old(self)@,
                old(self)@.context_menu->0,
                mouse,
                now,
            ),
    {
        if mouse.kind != MouseEventKind::Down(MouseButton::Left) {
            return Action::Idle;
        }
        let ghost view = self@.context_menu->0;
        let mut chosen: Option<(u64, MenuAction)> = None;
        if let Some(menu) = &self.context_menu {
            assert(menu@ == view);
            if let Some(action) = chosen_entry(menu, mouse.column, mouse.row) {
                chosen = Some((menu.session_id, action));
            }
        }
        self.context_menu = None;
        match chosen {
            Some((session_id, action)) => self.apply_menu_action(session_id, action, now),
            None => Action::Idle,
        }
    }

    /// Handles a mouse event.
    pub fn handle_mouse(&mut self, mouse: MouseEvent, now: u64) -> (r: Action)
        requires
            can_handle(old(self)@, mouse),
        ensures
            (final(self)@, r@) == moused(old(self)@, mouse, now),
    {
        if let InputMode::ConfirmClose { session_id } = &self.input_mode {
            let session_id = *session_id;
            if mouse.kind == MouseEventKind::Down(MouseButton::Left) {
                if contains(self.hits.confirm_yes, mouse.column, mouse.row) {
                    return self.confirm_close(session_id);
                }
                if contains(self.hits.confirm_no, mouse.column, mouse.row) {
                    self.input_mode = InputMode::Normal;
                }
            }
            return Action::Idle;
        }
        if self.context_menu.is_some() {
            return self.click_menu(mouse, now);
        }
        match mouse.kind {
            MouseEventKind::Drag(MouseButton::Left) => self.drag(mouse.column, mouse.row),
            MouseEventKind::Up(MouseButton::Left) => {
                self.dragging_split = None;
                Action::Idle
            },
            MouseEventKind::Down(MouseButton::Left) => self.press_left(
                mouse.column,
                mouse.row,
                now,
            ),
            MouseEventKind::Down(MouseButton::Right) => {
                self.press_right(mouse.column, mouse.row);
                Action::Idle
            },
            MouseEventKind::ScrollUp => self.turn_wheel(true, mouse.column, mouse.row),
            MouseEventKind::ScrollDown => self.turn_wheel(false, mouse.column, mouse.row),
            _ => Action::Idle,
        }
    }
}

impl App {
    fn can_place_beside(&self, target: u64) -> (r: bool)
        ensures
            r == groups::can_place(self@, target),
    {
        match session_position(self.sessions.as_slice(), target) {
            Some(index) => {
                assert(self@.sessions[index as int] == self.sessions@[index as int]@);
                self.sessions[index].group.is_some() || self.next_group_id < u64::MAX
            },
            None => true,
        }
    }

    fn can_carry_out(&self, session_id: u64, action: MenuAction) -> (r: bool)
        ensures
            r == menu::can_apply(AppView { context_menu: None, ..self@ }, session_id, action),
    {
        match session_position(self.sessions.as_slice(), session_id) {
            Some(index) => match action {
                MenuAction::CreateGroup => self.next_group_id < u64::MAX && (self.active == index
                    || self.active < self.sessions.len()),
                MenuAction::PlaceRelative { target, .. } => self.can_place_beside(target),
                _ => true,
            },
            None => true,
        }
    }

    /// Whether a mouse event can be handled.
    pub fn accepts_mouse(&self, mouse: MouseEvent) -> (r: bool)
        ensures
            r == can_handle(self@, mouse),
    {
        if let InputMode::ConfirmClose { .. } = &self.input_mode {
            return true;
        }
        if let Some(menu) = &self.context_menu {
            if mouse.kind != MouseEventKind::Down(MouseButton::Left) {
                return true;
            }
            return match chosen_entry(menu, mouse.column, mouse.row) {
                Some(action) => self.can_carry_out(menu.session_id, action),
                None => true,
            };
        }
        match mouse.kind {
            MouseEventKind::Down(MouseButton::Right) => match self.find_tab(
                mouse.column,
                mouse.row,
            ) {
                Some(index) => index >= self.sessions.len() || index == self.active || self.active
                    < self.sessions.len(),
                None => true,
            },
            MouseEventKind::ScrollUp | MouseEventKind::ScrollDown => match self.find_pane(
                mouse.column,
                mouse.row,
            ) {
                Some((index, _)) => index < self.sessions.len(),
                None => true,
            },
            _ => true,
        }
    }
}

fn chosen_entry(menu: &ContextMenu, x: u16, y: u16) -> (r: Option<MenuAction>)
    ensures
        r == entry_at(menu@, x as int, y as int),
{
    if contains(menu.area, x, y) && y > menu.area.y && y < menu.area.bottom().saturating_sub(1) {
        let row: usize = (y - menu.area.y - 1) as usize;
        if row < menu.entries.len() {
            assert(menu@.entries[row as int].1 == menu.entries@[row as int].1);
            return Some(menu.entries[row].1);
        }
    }
    None
}

/// Replaces the ratio of the split at a path, if there is one, and tells whether there is.
fn set_ratio(layout: &mut PaneLayout, path: &Vec<bool>, new_ratio: u16) -> (r: bool)
    ensures
        *final(layout) == with_ratio(*old(layout), path@, new_ratio as int),
        r == (layout::at_path(*old(layout), path@) matches Some(part) && part is Split),
        !r ==> *final(layout) == *old(layout),
{
    let ghost whole = *layout;
    match layout_at_path_mut(layout, path.as_slice()) {
        Some(PaneLayout::Split { ratio, .. }) => {
            *ratio = new_ratio;
            true
        },
        Some(_) => {
            proof {
                lemma_replaced_by_itself(whole, path@);
            }
            false
        },
        None => false,
    }
}

proof fn lemma_replaced_by_itself(layout: PaneLayout, path: Seq<bool>)
    requires
        layout::at_path(layout, path) is Some,
    ensures
        layout::replaced_at(layout, path, layout::at_path(layout, path)->0) == layout,
    decreases path.len(),
{
    if path.len() > 0 {
        match layout {
            PaneLayout::Leaf(id) => {},
            PaneLayout::Split { axis, ratio, first, second } => if path[0] {
                lemma_replaced_by_itself(*second, path.drop_first());
            } else {
                lemma_replaced_by_itself(*first, path.drop_first());
            },
        }
    }
}

} // verus!
