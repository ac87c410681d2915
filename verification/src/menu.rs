//! Context menus of tabs and pane groups.

use crate::app;
use crate::app::{
    Action, ActionView, App, AppView, ContextMenu, ContextMenuView, InputMode, InputModeView,
    MenuAction,
};
use crate::geometry;
use crate::geometry::Rect;
use crate::groups;
use crate::layout;
use crate::layout::{balanced_layout, equalize_layout, PaneLayout, SplitAxis};
use crate::session;
use crate::session::{session_position, SessionView};
use vstd::prelude::*;

verus! {

/// The length in bytes of the longest label.
pub open spec fn longest(entries: Seq<(Seq<char>, MenuAction)>) -> int
    decreases entries.len(),
{
    if entries.len() == 0 {
        0
    } else {
        geometry::greater(
            longest(entries.drop_last()),
            vstd::utf8::encode_utf8(entries.last().0).len() as int,
        )
    }
}

/// The width that a menu asks for: that of its longest label and three columns, but at least 24.
pub open spec fn menu_width(entries: Seq<(Seq<char>, MenuAction)>) -> int {
    geometry::greater(longest(entries) + 3, 24)
}

/// The area of a menu that is opened at column `x` and row `y`: no wider than the screen, and moved
/// to the left and up as far as needed to stay on the screen.
pub open spec fn menu_area(
    entries: Seq<(Seq<char>, MenuAction)>,
    screen: Rect,
    x: int,
    y: int,
) -> Rect {
    let width = geometry::lesser(menu_width(entries), screen.width as int);
    let height = entries.len() as int + 2;
    geometry::rect(
        geometry::lesser(x, geometry::minus(screen.width as int, width)),
        geometry::lesser(y, geometry::minus(screen.height as int, height)),
        width,
        height,
    )
}

/// The workspace with a menu open.
pub open spec fn with_menu(
    app: AppView,
    session_id: u64,
    entries: Seq<(Seq<char>, MenuAction)>,
    x: int,
    y: int,
) -> AppView {
    AppView {
        context_menu: Some(
            ContextMenuView {
                session_id,
                area: menu_area(entries, app.last_area, x, y),
                entries,
            },
        ),
        ..app
    }
}

/// The entries that place a session beside and below the active one. The active session itself has
/// none.
pub open spec fn place_entries(app: AppView, index: int) -> Seq<(Seq<char>, MenuAction)> {
    if index == app.active {
        Seq::empty()
    } else {
        let target = app.sessions[app.active as int].id;
        let pane = app.sessions[index].id;
        seq![
            (
                "Place beside current pane"@,
                MenuAction::PlaceRelative { target, pane, axis: SplitAxis::Horizontal },
            ),
            (
                "Place below current pane"@,
                MenuAction::PlaceRelative { target, pane, axis: SplitAxis::Vertical },
            ),
        ]
    }
}

/// The entries of the menu of a tab.
pub open spec fn tab_entries(app: AppView, index: int) -> Seq<(Seq<char>, MenuAction)> {
    let session = app.sessions[index];
    let rename = seq![("Rename"@, MenuAction::Rename)];
    let clear = if session.custom_name is Some {
        seq![("Clear custom name"@, MenuAction::ClearName)]
    } else {
        Seq::empty()
    };
    let group = if session.group is Some {
        seq![("Remove from group"@, MenuAction::RemoveFromGroup)]
    } else {
        seq![("Create pane group"@, MenuAction::CreateGroup)]
    };
    let close = seq![("Close tab"@, MenuAction::Close)];
    rename + clear + group + place_entries(app, index) + close
}

/// The entries of the menu of a pane group.
pub open spec fn group_entries(app: AppView, group: u64) -> Seq<(Seq<char>, MenuAction)> {
    let rename = seq![("Rename group"@, MenuAction::RenameGroup(group))];
    let clear = if app.group_names.contains_key(group) {
        seq![("Clear group name"@, MenuAction::ClearGroupName(group))]
    } else {
        Seq::empty()
    };
    rename + clear + seq![
        ("Ungroup"@, MenuAction::Ungroup(group)),
        ("Tile side by side"@, MenuAction::LayoutHorizontal(group)),
        ("Tile top and bottom"@, MenuAction::LayoutVertical(group)),
        ("Equalize panes"@, MenuAction::EqualizeGroup(group)),
    ]
}

/// The place of the first member of a group, from `from` on.
pub open spec fn first_member(sessions: Seq<SessionView>, group: u64, from: int) -> Option<int>
    decreases sessions.len() - from,
{
    if from < 0 || from >= sessions.len() {
        None
    } else if sessions[from].group == Some(group) {
        Some(from)
    } else {
        first_member(sessions, group, from + 1)
    }
}

/// The active session exists wherever the menu of the session at `index` names it.
pub open spec fn can_open(app: AppView, index: int) -> bool {
    index < app.sessions.len() && index != app.active ==> app.active < app.sessions.len()
}

/// The workspace with the menu of a tab open.
pub open spec fn tab_menu_opened(app: AppView, index: int, x: int, y: int) -> AppView {
    if index < app.sessions.len() {
        with_menu(app, app.sessions[index].id, tab_entries(app, index), x, y)
    } else {
        app
    }
}

/// The workspace with the menu of a pane group open.
pub open spec fn group_menu_opened(app: AppView, group: u64, x: int, y: int) -> AppView {
    match first_member(app.sessions, group, 0) {
        Some(index) => with_menu(app, app.sessions[index].id, group_entries(app, group), x, y),
        None => app,
    }
}

/// A label and what its entry does.
fn entry(label: &str, action: MenuAction) -> (r: (String, MenuAction))
    ensures
        r.0@ == label@,
        r.1 == action,
{
    (label.to_owned(), action)
}

/// A label is plain and short.
spec fn is_short(label: Seq<char>) -> bool {
    vstd::utf8::encode_utf8(label).len() <= 100
}

proof fn lemma_labels_are_short()
    ensures
        is_short("Rename"@),
        is_short("Clear custom name"@),
        is_short("Remove from group"@),
        is_short("Create pane group"@),
        is_short("Place beside current pane"@),
        is_short("Place below current pane"@),
        is_short("Close tab"@),
        is_short("Rename group"@),
        is_short("Clear group name"@),
        is_short("Ungroup"@),
        is_short("Tile side by side"@),
        is_short("Tile top and bottom"@),
        is_short("Equalize panes"@),
{
    reveal_strlit("Rename");
    reveal_strlit("Clear custom name");
    reveal_strlit("Remove from group");
    reveal_strlit("Create pane group");
    reveal_strlit("Place beside current pane");
    reveal_strlit("Place below current pane");
    reveal_strlit("Close tab");
    reveal_strlit("Rename group");
    reveal_strlit("Clear group name");
    reveal_strlit("Ungroup");
    reveal_strlit("Tile side by side");
    reveal_strlit("Tile top and bottom");
    reveal_strlit("Equalize panes");
    vstd::utf8::is_ascii_chars_encode_utf8("Rename"@);
    vstd::utf8::is_ascii_chars_encode_utf8("Clear custom name"@);
    vstd::utf8::is_ascii_chars_encode_utf8("Remove from group"@);
    vstd::utf8::is_ascii_chars_encode_utf8("Create pane group"@);
    vstd::utf8::is_ascii_chars_encode_utf8("Place beside current pane"@);
    vstd::utf8::is_ascii_chars_encode_utf8("Place below current pane"@);
    vstd::utf8::is_ascii_chars_encode_utf8("Close tab"@);
    vstd::utf8::is_ascii_chars_encode_utf8("Rename group"@);
    vstd::utf8::is_ascii_chars_encode_utf8("Clear group name"@);
    vstd::utf8::is_ascii_chars_encode_utf8("Ungroup"@);
    vstd::utf8::is_ascii_chars_encode_utf8("Tile side by side"@);
    vstd::utf8::is_ascii_chars_encode_utf8("Tile top and bottom"@);
    vstd::utf8::is_ascii_chars_encode_utf8("Equalize panes"@);
}

proof fn lemma_short_labels(entries: Seq<(Seq<char>, MenuAction)>)
    requires
        forall|i: int| 0 <= i < entries.len() ==> is_short((#[trigger] entries[i]).0),
    ensures
        0 <= longest(entries) <= 100,
    decreases entries.len(),
{
    if entries.len() > 0 {
        assert(is_short(entries[entries.len() - 1].0));
        lemma_short_labels(entries.drop_last());
    }
}

/// No label of the prefix is longer than the longest one.
proof fn lemma_longest_grows(entries: Seq<(Seq<char>, MenuAction)>, count: int)
    requires
        0 <= count <= entries.len(),
    ensures
        0 <= longest(entries.take(count)) <= longest(entries),
    decreases entries.len() - count, count,
{
    if count < entries.len() {
        lemma_longest_grows(entries, count + 1);
        assert(entries.take(count + 1).drop_last() =~= entries.take(count));
        lemma_longest_nonnegative(entries.take(count));
    } else {
        assert(entries.take(count) =~= entries);
        lemma_longest_nonnegative(entries);
    }
}

proof fn lemma_longest_nonnegative(entries: Seq<(Seq<char>, MenuAction)>)
    ensures
        0 <= longest(entries),
    decreases entries.len(),
{
    if entries.len() > 0 {
        lemma_longest_nonnegative(entries.drop_last());
    }
}

/// The sessions after a group was dissolved.
pub open spec fn ungrouped(sessions: Seq<SessionView>, group: u64) -> Seq<SessionView> {
    Seq::new(
        sessions.len(),
        |i: int|
            if sessions[i].group == Some(group) {
                SessionView { group: None, ..sessions[i] }
            } else {
                sessions[i]
            },
    )
}

/// The session that a new group for the session at `index` also takes in: the active one, if it is
/// another one without a group.
pub open spec fn partner(app: AppView, index: int) -> Option<int> {
    if app.active != index && app.sessions[app.active as int].group is None {
        Some(app.active as int)
    } else {
        None
    }
}

/// The workspace with a new group for the session at `index`, which becomes the active one.
pub open spec fn group_created(app: AppView, index: int) -> AppView {
    let group = app.next_group_id;
    let alone = groups::regrouped(app.sessions, index, Some(group));
    let (sessions, layout) = match partner(app, index) {
        Some(other) => (
            groups::regrouped(alone, other, Some(group)),
            layout::pair(
                app.sessions[index].id,
                app.sessions[other].id,
                SplitAxis::Horizontal,
            ),
        ),
        None => (alone, PaneLayout::Leaf(app.sessions[index].id)),
    };
    app::refitted(
        AppView {
            next_group_id: (group + 1) as u64,
            sessions,
            group_layouts: app.group_layouts.insert(group, layout),
            active: index as usize,
            ..app
        },
    )
}

/// The layouts with that of a group replaced by its members, split along `axis`.
pub open spec fn tiled(app: AppView, group: u64, axis: SplitAxis) -> AppView {
    app::refitted(
        AppView {
            group_layouts: app.group_layouts.insert(
                group,
                layout::balanced(layout::members(app.sessions, group), axis),
            ),
            ..app
        },
    )
}

/// The workspace after an entry of a menu was chosen for the session at `index`.
pub open spec fn applied(app: AppView, index: int, action: MenuAction, now: u64) -> AppView {
    let session = app.sessions[index];
    match action {
        MenuAction::Rename => AppView {
            input_mode: InputModeView::Rename {
                session_id: session.id,
                value: match session.custom_name {
                    Some(name) => name,
                    None => Seq::empty(),
                },
            },
            ..app
        },
        MenuAction::ClearName => AppView {
            sessions: app.sessions.update(index, SessionView { custom_name: None, ..session }),
            ..app
        },
        MenuAction::RenameGroup(group) => AppView {
            input_mode: InputModeView::RenameGroup {
                group_id: group,
                value: if app.group_names.contains_key(group) {
                    app.group_names[group]
                } else {
                    Seq::empty()
                },
            },
            ..app
        },
        MenuAction::ClearGroupName(group) => AppView {
            group_names: app.group_names.remove(group),
            ..app
        },
        MenuAction::CreateGroup => group_created(app, index),
        MenuAction::RemoveFromGroup => app::refitted(
            groups::cleaned(
                AppView {
                    group_layouts: groups::leaf_dropped(
                        app.group_layouts,
                        session.group,
                        session.id,
                    ),
                    sessions: groups::regrouped(app.sessions, index, None),
                    ..app
                },
            ),
        ),
        MenuAction::Ungroup(group) => app::refitted(
            AppView {
                sessions: ungrouped(app.sessions, group),
                group_names: app.group_names.remove(group),
                group_layouts: app.group_layouts.remove(group),
                ..app
            },
        ),
        MenuAction::LayoutHorizontal(group) => tiled(app, group, SplitAxis::Horizontal),
        MenuAction::LayoutVertical(group) => tiled(app, group, SplitAxis::Vertical),
        MenuAction::PlaceRelative { target, pane, axis } => groups::placed_relative(
            app,
            target,
            pane,
            axis,
        ),
        MenuAction::EqualizeGroup(group) => app::refitted(
            if app.group_layouts.contains_key(group) {
                AppView {
                    group_layouts: app.group_layouts.insert(
                        group,
                        layout::equalized(app.group_layouts[group]),
                    ),
                    ..app
                }
            } else {
                app
            },
        ),
        MenuAction::Close => groups::close_requested(app, index, now),
    }
}

/// What is left to be done after an entry was chosen for the session at `index`.
pub open spec fn applying(app: AppView, index: int, action: MenuAction, now: u64) -> ActionView {
    match action {
        MenuAction::Rename => ActionView::Idle,
        MenuAction::ClearName => ActionView::Idle,
        MenuAction::RenameGroup(_) => ActionView::Idle,
        MenuAction::ClearGroupName(_) => ActionView::Idle,
        MenuAction::PlaceRelative { target, pane, axis } => groups::placing_relative(
            app,
            target,
            pane,
        ),
        MenuAction::Close => groups::close_request(app, index, now),
        _ => ActionView::Resize,
    }
}

/// The workspace after an entry of the menu of a session was chosen.
pub open spec fn menu_applied(
    app: AppView,
    session_id: u64,
    action: MenuAction,
    now: u64,
) -> AppView {
    match session::position_of(app.sessions, session_id) {
        Some(index) => applied(app, index, action, now),
        None => app,
    }
}

/// What is left to be done after an entry of the menu of a session was chosen.
pub open spec fn menu_applying(
    app: AppView,
    session_id: u64,
    action: MenuAction,
    now: u64,
) -> ActionView {
    match session::position_of(app.sessions, session_id) {
        Some(index) => applying(app, index, action, now),
        None => ActionView::Idle,
    }
}

/// An entry can be carried out: a group that it creates gets a number, and the active session
/// exists where it is asked for.
pub open spec fn can_apply(app: AppView, session_id: u64, action: MenuAction) -> bool {
    session::position_of(app.sessions, session_id) matches Some(index) ==> match action {
        MenuAction::CreateGroup => app.next_group_id < u64::MAX && (app.active == index
            || app.active < app.sessions.len()),
        MenuAction::PlaceRelative { target, pane, axis } => groups::can_place(app, target),
        _ => true,
    }
}

impl App {
    fn show_context_menu(
        &mut self,
        session_id: u64,
        entries: Vec<(String, MenuAction)>,
        x: u16,
        y: u16,
    )
        requires
            longest(app::entry_views(entries@)) <= u16::MAX - 3,
            0 < entries@.len() <= u16::MAX - 2,
        ensures
            final(self)@ == with_menu(
                old(self)@,
                session_id,
                app::entry_views(entries@),
                x as int,
                y as int,
            ),
    {
        let ghost views = app::entry_views(entries@);
        let mut widest: u16 = 0;
        let mut i: usize = 0;
        assert(views.take(0) =~= Seq::empty());
        while i < entries.len()
            invariant
                i <= entries@.len(),
                views == app::entry_views(entries@),
                longest(views) <= u16::MAX - 3,
                widest == longest(views.take(i as int)),
            decreases entries@.len() - i,
        {
            proof {
                lemma_longest_grows(views, i + 1);
                assert(views.take(i + 1).drop_last() =~= views.take(i as int));
                assert(views.take(i + 1).last() == views[i as int]);
                assert(views[i as int].0 == entries@[i as int].0@);
            }
            let bytes = entries[i].0.as_str().as_bytes();
            let length = bytes.len();
            assert(length == vstd::utf8::encode_utf8(views[i as int].0).len());
            assert(length <= longest(views.take(i + 1)));
            if length > widest as usize {
                widest = length as u16;
            }
            i += 1;
        }
        assert(views.take(i as int) =~= views);
        let asked: u16 = if widest + 3 > 24 { widest + 3 } else { 24 };
        let screen = self.last_area;
        let width: u16 = if asked < screen.width { asked } else { screen.width };
        let height: u16 = entries.len() as u16 + 2;
        let right = screen.width.saturating_sub(width);
        let low = screen.height.saturating_sub(height);
        let area = Rect::new(
            if x < right { x } else { right },
            if y < low { y } else { low },
            width,
            height,
        );
        assert(area == menu_area(views, self@.last_area, x as int, y as int));
        self.context_menu = Some(ContextMenu { session_id, area, entries });
    }

    /// Opens the menu of a tab at column `x` and row `y`.
    pub fn open_context_menu(&mut self, index: usize, x: u16, y: u16)
        requires
            can_open(old(self)@, index as int),
        ensures
            final(self)@ == tab_menu_opened(old(self)@, index as int, x as int, y as int),
    {
        if index >= self.sessions.len() {
            return ;
        }
        let ghost before = self@;
        assert(before.sessions[index as int] == self.sessions@[index as int]@);
        let id = self.sessions[index].id;
        let mut entries: Vec<(String, MenuAction)> = Vec::new();
        let ghost mut views: Seq<(Seq<char>, MenuAction)> = Seq::empty();
        assert(app::entry_views(entries@) =~= views);
        entries.push(entry("Rename", MenuAction::Rename));
        proof {
            views = views.push(("Rename"@, MenuAction::Rename));
            assert(app::entry_views(entries@) =~= views);
        }
        if self.sessions[index].custom_name.is_some() {
            entries.push(entry("Clear custom name", MenuAction::ClearName));
            proof {
                views = views.push(("Clear custom name"@, MenuAction::ClearName));
                assert(app::entry_views(entries@) =~= views);
            }
        }
        if self.sessions[index].group.is_some() {
            entries.push(entry("Remove from group", MenuAction::RemoveFromGroup));
            proof {
                views = views.push(("Remove from group"@, MenuAction::RemoveFromGroup));
                assert(app::entry_views(entries@) =~= views);
            }
        } else {
            entries.push(entry("Create pane group", MenuAction::CreateGroup));
            proof {
                views = views.push(("Create pane group"@, MenuAction::CreateGroup));
                assert(app::entry_views(entries@) =~= views);
            }
        }
        if index != self.active {
            assert(before.sessions[self.active as int] == self.sessions@[self.active as int]@);
            let target = self.sessions[self.active].id;
            let right = MenuAction::PlaceRelative {
                target,
                pane: id,
                axis: SplitAxis::Horizontal,
            };
            entries.push(entry("Place beside current pane", right));
            proof {
                views = views.push(("Place beside current pane"@, right));
                assert(app::entry_views(entries@) =~= views);
            }
            let below = MenuAction::PlaceRelative { target, pane: id, axis: SplitAxis::Vertical };
            entries.push(entry("Place below current pane", below));
            proof {
                views = views.push(("Place below current pane"@, below));
                assert(app::entry_views(entries@) =~= views);
            }
        }
        entries.push(entry("Close tab", MenuAction::Close));
        proof {
            views = views.push(("Close tab"@, MenuAction::Close));
            assert(app::entry_views(entries@) =~= views);
            assert(views =~= tab_entries(before, index as int));
            lemma_labels_are_short();
            lemma_short_labels(views);
        }
        self.show_context_menu(id, entries, x, y);
    }

    /// Opens the menu of a pane group at column `x` and row `y`.
    pub fn open_group_context_menu(&mut self, group: u64, x: u16, y: u16)
        ensures
            final(self)@ == group_menu_opened(old(self)@, group, x as int, y as int),
    {
        let ghost before = self@;
        let mut index: usize = 0;
        while index < self.sessions.len() && self.sessions[index].group != Some(group)
            invariant
                self@ == before,
                index <= before.sessions.len(),
                first_member(before.sessions, group, 0) == first_member(
                    before.sessions,
                    group,
                    index as int,
                ),
            decreases before.sessions.len() - index,
        {
            assert(before.sessions[index as int] == self.sessions@[index as int]@);
            index += 1;
        }
        if index >= self.sessions.len() {
            return ;
        }
        assert(before.sessions[index as int] == self.sessions@[index as int]@);
        let id = self.sessions[index].id;
        let mut entries: Vec<(String, MenuAction)> = Vec::new();
        entries.push(entry("Rename group", MenuAction::RenameGroup(group)));
        let ghost mut views: Seq<(Seq<char>, MenuAction)> = seq![
            ("Rename group"@, MenuAction::RenameGroup(group)),
        ];
        assert(app::entry_views(entries@) =~= views);
        if self.group_names.contains_key(&group) {
            entries.push(entry("Clear group name", MenuAction::ClearGroupName(group)));
            proof {
                views = views.push(("Clear group name"@, MenuAction::ClearGroupName(group)));
                assert(app::entry_views(entries@) =~= views);
            }
        }
        entries.push(entry("Ungroup", MenuAction::Ungroup(group)));
        entries.push(entry("Tile side by side", MenuAction::LayoutHorizontal(group)));
        entries.push(entry("Tile top and bottom", MenuAction::LayoutVertical(group)));
        entries.push(entry("Equalize panes", MenuAction::EqualizeGroup(group)));
        proof {
            views = views + seq![
                ("Ungroup"@, MenuAction::Ungroup(group)),
                ("Tile side by side"@, MenuAction::LayoutHorizontal(group)),
                ("Tile top and bottom"@, MenuAction::LayoutVertical(group)),
                ("Equalize panes"@, MenuAction::EqualizeGroup(group)),
            ];
            assert(app::entry_views(entries@) =~= views);
            assert(views =~= group_entries(before, group));
            lemma_labels_are_short();
            lemma_short_labels(views);
        }
        self.show_context_menu(id, entries, x, y);
    }

    fn create_group(&mut self, index: usize)
        requires
            index < old(self)@.sessions.len(),
            old(self)@.next_group_id < u64::MAX,
            old(self)@.active == index || old(self)@.active < old(self)@.sessions.len(),
        ensures
            final(self)@ == group_created(old(self)@, index as int),
    {
        let ghost before = self@;
        assert(before.sessions[index as int] == self.sessions@[index as int]@);
        let group = self.next_group_id;
        let active = self.active;
        let id = self.sessions[index].id;
        let with_active = active != index && self.sessions[active].group.is_none();
        assert(before.sessions[active as int] == self.sessions@[active as int]@);
        assert(with_active == (partner(before, index as int) is Some));
        self.next_group_id = group + 1;
        self.set_group(index, Some(group));
        let layout = if with_active {
            assert(self.sessions@.len() == self@.sessions.len());
            assert(self@.sessions[active as int] == self.sessions@[active as int]@);
            let other = self.sessions[active].id;
            assert(other == before.sessions[active as int].id);
            self.set_group(active, Some(group));
            PaneLayout::Split {
                axis: SplitAxis::Horizontal,
                ratio: 50,
                first: Box::new(PaneLayout::Leaf(id)),
                second: Box::new(PaneLayout::Leaf(other)),
            }
        } else {
            PaneLayout::Leaf(id)
        };
        self.group_layouts.insert(group, layout);
        self.active = index;
        self.refit();
    }

    fn remove_from_group(&mut self, index: usize)
        requires
            index < old(self)@.sessions.len(),
        ensures
            final(self)@ == applied(old(self)@, index as int, MenuAction::RemoveFromGroup, 0),
    {
        let ghost before = self@;
        assert(before.sessions[index as int] == self.sessions@[index as int]@);
        let group = self.sessions[index].group;
        let id = self.sessions[index].id;
        self.drop_leaf(group, id);
        self.set_group(index, None);
        self.cleanup_groups();
        self.refit();
    }

    fn ungroup(&mut self, group: u64)
        ensures
            final(self)@ == applied(old(self)@, 0, MenuAction::Ungroup(group), 0),
    {
        let ghost before = self@;
        let ghost wanted = ungrouped(before.sessions, group);
        let mut i: usize = 0;
        while i < self.sessions.len()
            invariant
                i <= before.sessions.len(),
                self@ == (AppView { sessions: self@.sessions, ..before }),
                wanted == ungrouped(before.sessions, group),
                self@.sessions.len() == before.sessions.len(),
                forall|j: int| 0 <= j < i ==> #[trigger] self@.sessions[j] == wanted[j],
                forall|j: int|
                    i <= j < before.sessions.len() ==> #[trigger] self@.sessions[j]
                        == before.sessions[j],
            decreases before.sessions.len() - i,
        {
            assert(self@.sessions[i as int] == self.sessions@[i as int]@);
            if let Some(own) = self.sessions[i].group {
                if own == group {
                    self.set_group(i, None);
                }
            }
            i += 1;
        }
        assert(self@.sessions =~= wanted);
        self.group_names.remove(&group);
        assert(self@.group_names =~= before.group_names.remove(group));
        self.group_layouts.remove(&group);
        assert(self@.group_layouts =~= before.group_layouts.remove(group));
        self.refit();
    }

    fn tile(&mut self, group: u64, axis: SplitAxis)
        ensures
            final(self)@ == tiled(old(self)@, group, axis),
    {
        let layout = balanced_layout(self.sessions.as_slice(), group, axis);
        self.group_layouts.insert(group, layout);
        self.refit();
    }

    fn equalize(&mut self, group: u64)
        ensures
            final(self)@ == applied(old(self)@, 0, MenuAction::EqualizeGroup(group), 0),
    {
        let ghost before = self@;
        if let Some(layout) = self.group_layouts.remove(&group) {
            let mut layout = layout;
            equalize_layout(&mut layout);
            self.group_layouts.insert(group, layout);
            assert(self@.group_layouts =~= before.group_layouts.insert(
                group,
                layout::equalized(before.group_layouts[group]),
            ));
        } else {
            assert(self@.group_layouts =~= before.group_layouts);
        }
        self.refit();
    }

    /// Carries out an entry of the menu of a session.
    pub fn apply_menu_action(&mut self, session_id: u64, action: MenuAction, now: u64) -> (r: Action)
        requires
            can_apply(old(self)@, session_id, action),
        ensures
            final(self)@ == menu_applied(old(self)@, session_id, action, now),
            r@ == menu_applying(old(self)@, session_id, action, now),
    {
        let ghost before = self@;
        let index = match session_position(self.sessions.as_slice(), session_id) {
            Some(index) => index,
            None => return Action::Idle,
        };
        assert(before.sessions[index as int] == self.sessions@[index as int]@);
        match action {
            MenuAction::Rename => {
                let value = match &self.sessions[index].custom_name {
                    Some(name) => name.clone(),
                    None => String::new(),
                };
                self.input_mode = InputMode::Rename { session_id, value };
                Action::Idle
            },
            MenuAction::ClearName => {
                self.sessions[index].custom_name = None;
                assert(self@.sessions =~= applied(before, index as int, action, now).sessions);
                Action::Idle
            },
            MenuAction::RenameGroup(group) => {
                let value = match self.group_names.get(&group) {
                    Some(name) => name.clone(),
                    None => String::new(),
                };
                self.input_mode = InputMode::RenameGroup { group_id: group, value };
                Action::Idle
            },
            MenuAction::ClearGroupName(group) => {
                self.group_names.remove(&group);
                assert(self@.group_names =~= before.group_names.remove(group));
                Action::Idle
            },
            MenuAction::CreateGroup => {
                self.create_group(index);
                Action::Resize
            },
            MenuAction::RemoveFromGroup => {
                self.remove_from_group(index);
                Action::Resize
            },
            MenuAction::Ungroup(group) => {
                self.ungroup(group);
                Action::Resize
            },
            MenuAction::LayoutHorizontal(group) => {
                self.tile(group, SplitAxis::Horizontal);
                Action::Resize
            },
            MenuAction::LayoutVertical(group) => {
                self.tile(group, SplitAxis::Vertical);
                Action::Resize
            },
            MenuAction::PlaceRelative { target, pane, axis } => {
                self.place_relative_to_current(target, pane, axis)
            },
            MenuAction::EqualizeGroup(group) => {
                self.equalize(group);
                Action::Resize
            },
            MenuAction::Close => self.request_close(index, now),
        }
    }
}

} // verus!
