//! The state of the workspace.

use crate::geometry;
use crate::geometry::{terminal_area, Rect, MOBILE_THRESHOLD};
use crate::labels;
use crate::labels::group_display_name;
use crate::layout;
use crate::layout::{
    collect_layout_geometry, layout_fits, layout_for_group, PaneLayout, SplitAxis, SplitHit,
    SplitHitView,
};
use crate::session;
use crate::session::{Session, SessionView};
use std::collections::HashMap;
use vstd::prelude::*;

verus! {

/// Where a tab was drawn.
#[derive(Clone, Copy, Debug, PartialEq, Eq, Structural)]
pub struct TabHit {
    pub index: usize,
    pub body: Rect,
    pub close: Rect,
}

/// Where the parts of the screen were drawn.
pub struct HitAreas {
    pub sidebar: Rect,
    pub terminal: Rect,
    pub plus: Rect,
    pub toggle: Rect,
    pub tabs: Vec<TabHit>,
    pub panes: Vec<(usize, Rect)>,
    pub groups: Vec<(u64, Rect)>,
    pub split_dividers: Vec<SplitHit>,
    pub confirm_yes: Rect,
    pub confirm_no: Rect,
}

/// The places of the parts of the screen, with lists as sequences.
pub struct HitAreasView {
    pub sidebar: Rect,
    pub terminal: Rect,
    pub plus: Rect,
    pub toggle: Rect,
    pub tabs: Seq<TabHit>,
    pub panes: Seq<(usize, Rect)>,
    pub groups: Seq<(u64, Rect)>,
    pub split_dividers: Seq<SplitHitView>,
    pub confirm_yes: Rect,
    pub confirm_no: Rect,
}

impl View for HitAreas {
    type V = HitAreasView;

    open spec fn view(&self) -> HitAreasView {
        HitAreasView {
            sidebar: self.sidebar,
            terminal: self.terminal,
            plus: self.plus,
            toggle: self.toggle,
            tabs: self.tabs@,
            panes: self.panes@,
            groups: self.groups@,
            split_dividers: layout::split_hit_views(self.split_dividers@),
            confirm_yes: self.confirm_yes,
            confirm_no: self.confirm_no,
        }
    }
}

/// Nothing was drawn yet.
pub open spec fn no_hits() -> HitAreasView {
    let none = geometry::rect(0, 0, 0, 0);
    HitAreasView {
        sidebar: none,
        terminal: none,
        plus: none,
        toggle: none,
        tabs: Seq::empty(),
        panes: Seq::empty(),
        groups: Seq::empty(),
        split_dividers: Seq::empty(),
        confirm_yes: none,
        confirm_no: none,
    }
}

impl Default for HitAreas {
    fn default() -> (r: HitAreas)
        ensures
            r@ == no_hits(),
    {
        let r = HitAreas {
            sidebar: Rect::new(0, 0, 0, 0),
            terminal: Rect::new(0, 0, 0, 0),
            plus: Rect::new(0, 0, 0, 0),
            toggle: Rect::new(0, 0, 0, 0),
            tabs: Vec::new(),
            panes: Vec::new(),
            groups: Vec::new(),
            split_dividers: Vec::new(),
            confirm_yes: Rect::new(0, 0, 0, 0),
            confirm_no: Rect::new(0, 0, 0, 0),
        };
        assert(r@.split_dividers == no_hits().split_dividers);
        r
    }
}

/// What an entry of a context menu does.
#[derive(Clone, Copy, Debug, PartialEq, Eq, Structural)]
pub enum MenuAction {
    Rename,
    ClearName,
    RenameGroup(u64),
    ClearGroupName(u64),
    LayoutHorizontal(u64),
    LayoutVertical(u64),
    PlaceRelative { target: u64, pane: u64, axis: SplitAxis },
    EqualizeGroup(u64),
    CreateGroup,
    RemoveFromGroup,
    Ungroup(u64),
    Close,
}

/// The open context menu.
pub struct ContextMenu {
    pub session_id: u64,
    pub area: Rect,
    pub entries: Vec<(String, MenuAction)>,
}

/// The open context menu with its labels as sequences of characters.
pub struct ContextMenuView {
    pub session_id: u64,
    pub area: Rect,
    pub entries: Seq<(Seq<char>, MenuAction)>,
}

/// The entries of a menu with their labels as sequences of characters.
pub open spec fn entry_views(entries: Seq<(String, MenuAction)>) -> Seq<(Seq<char>, MenuAction)> {
    Seq::new(entries.len(), |i: int| (entries[i].0@, entries[i].1))
}

impl View for ContextMenu {
    type V = ContextMenuView;

    open spec fn view(&self) -> ContextMenuView {
        ContextMenuView {
            session_id: self.session_id,
            area: self.area,
            entries: entry_views(self.entries@),
        }
    }
}

/// What the keyboard is used for.
pub enum InputMode {
    Normal,
    Rename { session_id: u64, value: String },
    RenameGroup { group_id: u64, value: String },
    ConfirmClose { session_id: u64 },
}

/// What the keyboard is used for, with texts as sequences of characters.
pub enum InputModeView {
    Normal,
    Rename { session_id: u64, value: Seq<char> },
    RenameGroup { group_id: u64, value: Seq<char> },
    ConfirmClose { session_id: u64 },
}

impl View for InputMode {
    type V = InputModeView;

    open spec fn view(&self) -> InputModeView {
        match self {
            InputMode::Normal => InputModeView::Normal,
            InputMode::Rename { session_id, value } => InputModeView::Rename {
                session_id: *session_id,
                value: value@,
            },
            InputMode::RenameGroup { group_id, value } => InputModeView::RenameGroup {
                group_id: *group_id,
                value: value@,
            },
            InputMode::ConfirmClose { session_id } => InputModeView::ConfirmClose {
                session_id: *session_id,
            },
        }
    }
}

/// The workspace: its sessions, the pane groups, and what the user is doing.
pub struct App {
    pub host_terminal: String,
    pub sessions: Vec<Session>,
    /// The place of the active session.
    pub active: usize,
    pub sidebar_collapsed: bool,
    /// The user has collapsed the sidebar.
    pub manual_collapse: bool,
    pub hits: HitAreas,
    pub last_area: Rect,
    pub next_session_id: u64,
    pub next_group_id: u64,
    pub group_names: HashMap<u64, String>,
    pub group_layouts: HashMap<u64, PaneLayout>,
    pub context_menu: Option<ContextMenu>,
    pub input_mode: InputMode,
    pub spinner_tick: usize,
    pub exit_requested: bool,
    /// The workspace is left empty for the next start.
    pub clear_workspace_on_exit: bool,
    /// When the prefix key was pressed, in nanoseconds.
    pub prefix_started: Option<u64>,
    pub dragging_split: Option<SplitHit>,
}

/// The workspace with its lists, maps and texts as mathematical values.
pub struct AppView {
    pub host_terminal: Seq<char>,
    pub sessions: Seq<SessionView>,
    pub active: usize,
    pub sidebar_collapsed: bool,
    pub manual_collapse: bool,
    pub hits: HitAreasView,
    pub last_area: Rect,
    pub next_session_id: u64,
    pub next_group_id: u64,
    pub group_names: Map<u64, Seq<char>>,
    pub group_layouts: Map<u64, PaneLayout>,
    pub context_menu: Option<ContextMenuView>,
    pub input_mode: InputModeView,
    pub spinner_tick: usize,
    pub exit_requested: bool,
    pub clear_workspace_on_exit: bool,
    pub prefix_started: Option<u64>,
    pub dragging_split: Option<SplitHitView>,
}

/// The view of an optional menu.
pub open spec fn menu_view(menu: Option<ContextMenu>) -> Option<ContextMenuView> {
    match menu {
        Some(menu) => Some(menu@),
        None => None,
    }
}

/// The view of an optional divider.
pub open spec fn split_view(hit: Option<SplitHit>) -> Option<SplitHitView> {
    match hit {
        Some(hit) => Some(hit@),
        None => None,
    }
}

impl View for App {
    type V = AppView;

    open spec fn view(&self) -> AppView {
        AppView {
            host_terminal: self.host_terminal@,
            sessions: session::session_views(self.sessions@),
            active: self.active,
            sidebar_collapsed: self.sidebar_collapsed,
            manual_collapse: self.manual_collapse,
            hits: self.hits@,
            last_area: self.last_area,
            next_session_id: self.next_session_id,
            next_group_id: self.next_group_id,
            group_names: labels::name_texts(self.group_names@),
            group_layouts: self.group_layouts@,
            context_menu: menu_view(self.context_menu),
            input_mode: self.input_mode@,
            spinner_tick: self.spinner_tick,
            exit_requested: self.exit_requested,
            clear_workspace_on_exit: self.clear_workspace_on_exit,
            prefix_started: self.prefix_started,
            dragging_split: split_view(self.dragging_split),
        }
    }
}

/// What is left to be done outside the workspace after an event.
pub enum Action {
    /// Nothing.
    Idle,
    /// End the program.
    Quit,
    /// Start a shell and add its session.
    Spawn(SpawnRequest),
    /// Send bytes to the terminal of a session.
    Write { index: usize, bytes: Vec<u8> },
    /// Bring the terminals to the sizes of their panes.
    Resize,
    /// Drop the terminal of the session that was at a place, then bring the others to size.
    Close { index: usize },
    /// Report a wheel step to a terminal if it wants it, and scroll its view: what
    /// `screen::turn_wheel` does.
    Wheel { index: usize, up: bool, column: u16, row: u16 },
}

/// A shell to be started.
#[derive(Clone, Copy, Debug, PartialEq, Eq, Structural)]
pub struct SpawnRequest {
    pub id: u64,
    pub rows: u16,
    pub cols: u16,
    /// The session in whose directory it is started, if any.
    pub beside: Option<usize>,
}

/// What is left to be done, with bytes as a sequence.
pub enum ActionView {
    Idle,
    Quit,
    Spawn(SpawnRequest),
    Write { index: usize, bytes: Seq<u8> },
    Resize,
    Close { index: usize },
    Wheel { index: usize, up: bool, column: u16, row: u16 },
}

impl View for Action {
    type V = ActionView;

    open spec fn view(&self) -> ActionView {
        match self {
            Action::Idle => ActionView::Idle,
            Action::Quit => ActionView::Quit,
            Action::Spawn(request) => ActionView::Spawn(*request),
            Action::Write { index, bytes } => ActionView::Write { index: *index, bytes: bytes@ },
            Action::Resize => ActionView::Resize,
            Action::Close { index } => ActionView::Close { index: *index },
            Action::Wheel { index, up, column, row } => ActionView::Wheel {
                index: *index,
                up: *up,
                column: *column,
                row: *row,
            },
        }
    }
}

/// Every rectangle that was drawn has its right and bottom coordinates within `u16`.
pub open spec fn hits_wf(hits: HitAreasView) -> bool {
    &&& hits.sidebar.wf()
    &&& hits.terminal.wf()
    &&& hits.plus.wf()
    &&& hits.toggle.wf()
    &&& hits.confirm_yes.wf()
    &&& hits.confirm_no.wf()
    &&& forall|i: int| 0 <= i < hits.tabs.len() ==> (#[trigger] hits.tabs[i]).body.wf()
        && hits.tabs[i].close.wf()
    &&& forall|i: int| 0 <= i < hits.panes.len() ==> (#[trigger] hits.panes[i]).1.wf()
    &&& forall|i: int| 0 <= i < hits.groups.len() ==> (#[trigger] hits.groups[i]).1.wf()
}

impl AppView {
    /// The rectangles in the state have their right and bottom coordinates within `u16`.
    pub open spec fn wf(self) -> bool {
        &&& self.last_area.wf()
        &&& hits_wf(self.hits)
        &&& self.context_menu matches Some(menu) ==> menu.area.wf()
    }
}

/// The group of the session at a place, if there is a session and it is in one.
pub open spec fn group_at(sessions: Seq<SessionView>, index: int) -> Option<u64> {
    if 0 <= index < sessions.len() {
        sessions[index].group
    } else {
        None
    }
}

/// The workspace for a screen of the given size.
pub open spec fn sized(app: AppView, area: Rect) -> AppView {
    AppView {
        last_area: area,
        sidebar_collapsed: app.manual_collapse || area.width < MOBILE_THRESHOLD,
        ..app
    }
}

/// The workspace after a change that calls for new pane sizes.
pub open spec fn refitted(app: AppView) -> AppView {
    sized(app, app.last_area)
}

/// The layout of a group: its own, or its members side by side.
pub open spec fn layout_of(app: AppView, group: u64) -> PaneLayout {
    if app.group_layouts.contains_key(group) {
        app.group_layouts[group]
    } else {
        layout::balanced(layout::members(app.sessions, group), SplitAxis::Horizontal)
    }
}

/// The panes on the screen: those of the group of the active session, or that session alone.
pub open spec fn panes(app: AppView, terminal: Rect) -> Seq<(usize, Rect)> {
    if app.active >= app.sessions.len() {
        Seq::empty()
    } else {
        match app.sessions[app.active as int].group {
            Some(group) => layout::panes_among(
                layout::leaf_areas(layout_of(app, group), terminal),
                app.sessions,
            ),
            None => seq![(app.active, terminal)],
        }
    }
}

/// The dividers on the screen.
pub open spec fn dividers(app: AppView, terminal: Rect) -> Seq<SplitHitView> {
    if app.active >= app.sessions.len() {
        Seq::empty()
    } else {
        match app.sessions[app.active as int].group {
            Some(group) => layout::dividers_of(
                layout_of(app, group),
                terminal,
                group,
                Seq::empty(),
            ),
            None => Seq::empty(),
        }
    }
}

/// The coordinates of the panes on the screen stay within `u16`.
pub open spec fn panes_fit(app: AppView, terminal: Rect) -> bool {
    match group_at(app.sessions, app.active as int) {
        Some(group) => layout::fits(layout_of(app, group), terminal),
        None => true,
    }
}

/// The panes and the dividers on the screen.
pub fn pane_geometry(app: &App, terminal: Rect) -> (r: (Vec<(usize, Rect)>, Vec<SplitHit>))
    requires
        panes_fit(app@, terminal),
    ensures
        r.0@ == panes(app@, terminal),
        layout::split_hit_views(r.1@) == dividers(app@, terminal),
{
    let mut panes: Vec<(usize, Rect)> = Vec::new();
    let mut dividers: Vec<SplitHit> = Vec::new();
    assert(layout::split_hit_views(dividers@) == Seq::<SplitHitView>::empty());
    if app.active >= app.sessions.len() {
        return (panes, dividers);
    }
    if let Some(group) = app.sessions[app.active].group {
        let mut path: Vec<bool> = Vec::new();
        match app.group_layouts.get(&group) {
            Some(layout) => {
                collect_layout_geometry(
                    layout,
                    terminal,
                    group,
                    &mut path,
                    app.sessions.as_slice(),
                    &mut panes,
                    &mut dividers,
                );
            },
            None => {
                let fallback = layout_for_group(app.sessions.as_slice(), group);
                collect_layout_geometry(
                    &fallback,
                    terminal,
                    group,
                    &mut path,
                    app.sessions.as_slice(),
                    &mut panes,
                    &mut dividers,
                );
            },
        }
    } else {
        panes.push((app.active, terminal));
    }
    (panes, dividers)
}

/// The panes on the screen.
pub fn pane_areas_for(app: &App, terminal: Rect) -> (r: Vec<(usize, Rect)>)
    requires
        panes_fit(app@, terminal),
    ensures
        r@ == panes(app@, terminal),
{
    pane_geometry(app, terminal).0
}

impl App {
    /// Whether the coordinates of the panes on the screen stay within `u16`.
    pub fn panes_fit_in(&self, terminal: Rect) -> (r: bool)
        ensures
            r == panes_fit(self@, terminal),
    {
        if self.active >= self.sessions.len() {
            return true;
        }
        if let Some(group) = self.sessions[self.active].group {
            match self.group_layouts.get(&group) {
                Some(layout) => layout_fits(layout, terminal),
                None => {
                    let fallback = layout_for_group(self.sessions.as_slice(), group);
                    layout_fits(&fallback, terminal)
                },
            }
        } else {
            true
        }
    }

    pub(crate) fn apply_size(&mut self, area: Rect)
        ensures
            final(self)@ == sized(old(self)@, area),
    {
        self.last_area = area;
        self.sidebar_collapsed = self.manual_collapse || area.width < MOBILE_THRESHOLD;
    }

    pub(crate) fn refit(&mut self)
        ensures
            final(self)@ == refitted(old(self)@),
    {
        let area = self.last_area;
        self.apply_size(area);
    }

    /// Adapts the workspace to a screen of the given size, and tells the sessions on it and the
    /// areas of their panes. Where the coordinates of the panes do not stay within `u16`, the
    /// areas are not told.
    pub fn resize(&mut self, area: Rect) -> (r: Option<Vec<(usize, Rect)>>)
        requires
            area.wf(),
        ensures
            final(self)@ == sized(old(self)@, area),
            ({
                let after = sized(old(self)@, area);
                let terminal = geometry::terminal_rect(area, after.sidebar_collapsed);
                match r {
                    Some(areas) => panes_fit(after, terminal) && areas@ == panes(after, terminal),
                    None => !panes_fit(after, terminal),
                }
            }),
    {
        self.apply_size(area);
        let terminal = terminal_area(area, self.sidebar_collapsed);
        if self.panes_fit_in(terminal) {
            Some(pane_areas_for(self, terminal))
        } else {
            None
        }
    }

    /// The name of a pane group.
    pub fn group_name(&self, group: u64) -> (r: String)
        ensures
            r@ == labels::group_title(self@.group_names, group),
    {
        group_display_name(&self.group_names, group)
    }

    /// Bytes for the active session.
    pub fn write_active(&self, bytes: Vec<u8>) -> (r: Action)
        ensures
            r@ == written(self@, bytes@),
    {
        if self.active < self.sessions.len() {
            Action::Write { index: self.active, bytes }
        } else {
            Action::Idle
        }
    }

    /// The shell to be started for a new session.
    pub fn spawn_request(&self) -> (r: SpawnRequest)
        ensures
            r == new_session(self@),
    {
        let area = self.hits.terminal;
        SpawnRequest {
            id: self.next_session_id,
            rows: if area.height >= 2 { area.height } else { 2 },
            cols: if area.width >= 2 { area.width } else { 2 },
            beside: if self.active < self.sessions.len() { Some(self.active) } else { None },
        }
    }

    /// Adds the session whose shell was started in `cwd`, and makes it the active one.
    pub fn add_session(&mut self, cwd: Vec<u8>, shell_pid: Option<u32>)
        requires
            old(self)@.next_session_id < u64::MAX,
        ensures
            final(self)@ == with_session(old(self)@, cwd@, shell_pid),
    {
        let ghost before = self@.sessions;
        let id = self.next_session_id;
        let session = Session::fresh(id, cwd, shell_pid);
        self.sessions.push(session);
        assert(self@.sessions == before.push(session@));
        self.next_session_id = id + 1;
        self.active = self.sessions.len() - 1;
    }
}

/// Bytes for the active session, if there is one.
pub open spec fn written(app: AppView, bytes: Seq<u8>) -> ActionView {
    if app.active < app.sessions.len() {
        ActionView::Write { index: app.active, bytes }
    } else {
        ActionView::Idle
    }
}

/// The shell to be started for a new session: with the next id, the size of the terminal area but
/// at least two rows and columns, and in the directory of the active session.
pub open spec fn new_session(app: AppView) -> SpawnRequest {
    SpawnRequest {
        id: app.next_session_id,
        rows: geometry::greater(app.hits.terminal.height as int, 2) as u16,
        cols: geometry::greater(app.hits.terminal.width as int, 2) as u16,
        beside: if app.active < app.sessions.len() { Some(app.active) } else { None },
    }
}

/// The workspace with a new session at its end, which is the active one.
pub open spec fn with_session(app: AppView, cwd: Seq<u8>, shell_pid: Option<u32>) -> AppView {
    AppView {
        sessions: app.sessions.push(session::fresh_session(app.next_session_id, cwd, shell_pid)),
        next_session_id: (app.next_session_id + 1) as u64,
        active: app.sessions.len() as usize,
        ..app
    }
}

} // verus!
