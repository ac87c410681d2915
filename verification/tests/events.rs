//! Keys, mouse and pasted text.

use plexr::app::{Action, App, InputMode, MenuAction, SpawnRequest, TabHit};
use plexr::events::{
    KeyCode, KeyEvent, KeyEventKind, KeyModifiers, MouseButton, MouseEvent, MouseEventKind,
};
use plexr::geometry::Rect;
use plexr::layout::{PaneLayout, SplitAxis, SplitHit};
use plexr::session::{session_position, Session};
use plexr::tabs::{collapsed_sidebar_label, sidebar_order, top_level_units};
use plexr::workspace::{PersistedSession, Started, WorkspaceSnapshot};
use std::collections::HashMap;

const SECOND: u64 = 1_000_000_000;

fn persisted(id: u64, group: Option<u64>) -> PersistedSession {
    PersistedSession {
        id,
        custom_name: None,
        last_command: None,
        cwd: b"/".to_vec(),
        group,
        running_command: None,
    }
}

/// A workspace of sessions with the given ids and groups.
fn workspace(list: &[(u64, Option<u64>)]) -> App {
    let snapshot = WorkspaceSnapshot {
        version: 1,
        active_session: list[0].0,
        next_session_id: 50,
        next_group_id: 20,
        sessions: list.iter().map(|(id, group)| persisted(*id, *group)).collect(),
        group_names: HashMap::new(),
        group_layouts: HashMap::new(),
    };
    let started = list
        .iter()
        .map(|_| Started { cwd: b"/".to_vec(), shell_pid: Some(77) })
        .collect();
    App::new(
        Rect::new(0, 0, 120, 40),
        "kitty".to_string(),
        Some(snapshot),
        started,
        0,
    )
    .0
}

fn ids(app: &App) -> Vec<u64> {
    app.sessions.iter().map(|session| session.id).collect()
}

fn press(code: KeyCode) -> KeyEvent {
    KeyEvent::new(code, KeyModifiers::empty())
}

fn control(c: char) -> KeyEvent {
    KeyEvent::new(KeyCode::Char(c), KeyModifiers::control())
}

fn mouse(kind: MouseEventKind, column: u16, row: u16) -> MouseEvent {
    MouseEvent { kind, column, row }
}

fn left(column: u16, row: u16) -> MouseEvent {
    mouse(MouseEventKind::Down(MouseButton::Left), column, row)
}

fn written(action: Action) -> Option<(usize, Vec<u8>)> {
    match action {
        Action::Write { index, bytes } => Some((index, bytes)),
        _ => None,
    }
}

fn leaf_ids(layout: &PaneLayout) -> Vec<u64> {
    match layout {
        PaneLayout::Leaf(id) => vec![*id],
        PaneLayout::Split { first, second, .. } => {
            let mut ids = leaf_ids(first);
            ids.extend(leaf_ids(second));
            ids
        }
    }
}

#[test]
fn groups_stand_together_in_the_sidebar() {
    let app = workspace(&[(1, None), (2, Some(5)), (3, None), (4, Some(5)), (5, Some(6))]);
    assert_eq!(sidebar_order(&app), vec![0, 1, 3, 2, 4]);
    assert_eq!(top_level_units(&app), vec![0, 1, 2, 4]);
    let labels: Vec<String> = (0..5).map(|i| collapsed_sidebar_label(&app, i)).collect();
    assert_eq!(labels, vec![" 1 ", " 2 ", " 3 ", " · ", " 4 "]);
}

#[test]
fn units_beyond_the_tenth_have_no_key() {
    let list: Vec<(u64, Option<u64>)> = (1..=12).map(|id| (id, None)).collect();
    let app = workspace(&list);
    assert_eq!(collapsed_sidebar_label(&app, 8), " 9 ");
    assert_eq!(collapsed_sidebar_label(&app, 9), " 0 ");
    assert_eq!(collapsed_sidebar_label(&app, 10), " · ");
}

#[test]
fn number_keys_select_units() {
    let mut app = workspace(&[(1, None), (2, Some(5)), (3, None), (4, Some(5))]);
    app.prefix_started = Some(0);
    assert!(matches!(app.handle_key(press(KeyCode::Char('3')), 1), Action::Resize));
    assert_eq!(app.active, 2);
    assert_eq!(app.prefix_started, None);
    assert!(matches!(
        app.handle_prefix_key(press(KeyCode::Char('0')), 1),
        Action::Idle
    ));
    assert_eq!(app.active, 2);
    assert!(app.select_top_level(1));
    assert_eq!(app.active, 1);
    assert!(!app.select_top_level(3));
}

#[test]
fn cycling_wraps_around() {
    let mut app = workspace(&[(1, None), (2, Some(5)), (3, None), (4, Some(5))]);
    app.active = 3;
    assert!(app.cycle_top_level(1));
    assert_eq!(app.active, 2);
    assert!(app.cycle_top_level(1));
    assert_eq!(app.active, 0);
    assert!(app.cycle_top_level(-1));
    assert_eq!(app.active, 2);
    assert!(app.cycle_top_level(-7));
    assert_eq!(app.active, 1);
    assert!(app.cycle_top_level(isize::MIN));
    app.handle_prefix_key(press(KeyCode::Left), 0);
    app.handle_prefix_key(press(KeyCode::Right), 0);
}

#[test]
fn focus_goes_to_the_nearest_pane() {
    let mut app = workspace(&[(1, Some(5)), (2, Some(5)), (3, Some(5)), (4, Some(5))]);
    app.hits.panes = vec![
        (0, Rect::new(0, 0, 40, 10)),
        (1, Rect::new(41, 0, 40, 10)),
        (2, Rect::new(0, 11, 40, 10)),
        (3, Rect::new(41, 11, 40, 10)),
    ];
    app.focus_pane(KeyCode::Right);
    assert_eq!(app.active, 1);
    app.focus_pane(KeyCode::Down);
    assert_eq!(app.active, 3);
    app.focus_pane(KeyCode::Left);
    assert_eq!(app.active, 2);
    app.focus_pane(KeyCode::Up);
    assert_eq!(app.active, 0);
    app.focus_pane(KeyCode::Up);
    assert_eq!(app.active, 0);
    app.focus_pane(KeyCode::Enter);
    assert_eq!(app.active, 0);
    for (c, wanted) in [('l', 1), ('j', 3), ('h', 2), ('k', 0)] {
        app.handle_prefix_key(press(KeyCode::Char(c)), 0);
        assert_eq!(app.active, wanted);
    }
}

#[test]
fn the_first_of_equally_near_panes_is_taken() {
    let mut app = workspace(&[(1, Some(5)), (2, Some(5)), (3, Some(5))]);
    app.hits.panes = vec![
        (0, Rect::new(0, 5, 10, 10)),
        (1, Rect::new(20, 0, 10, 10)),
        (2, Rect::new(20, 10, 10, 10)),
    ];
    app.focus_pane(KeyCode::Right);
    assert_eq!(app.active, 1);
}

#[test]
fn the_prefix_key_waits_one_second() {
    let mut app = workspace(&[(1, None), (2, None)]);
    assert!(matches!(app.handle_key(control('b'), 5), Action::Resize));
    assert_eq!(app.prefix_started, Some(5));
    let action = app.handle_key(press(KeyCode::Char('2')), 6 + SECOND);
    assert_eq!(written(action), Some((0, b"2".to_vec())));
    assert_eq!(app.active, 0);
    app.handle_key(control('b'), 5);
    app.handle_key(press(KeyCode::Char('2')), 5 + SECOND);
    assert_eq!(app.active, 1);
}

#[test]
fn control_b_toggles_the_sidebar() {
    let mut app = workspace(&[(1, None)]);
    assert!(!app.sidebar_collapsed);
    assert!(matches!(app.handle_key(control('b'), 0), Action::Resize));
    assert!(app.sidebar_collapsed && app.manual_collapse);
    assert_eq!(
        written(app.handle_key(control('b'), 1)),
        Some((0, vec![2]))
    );
    assert!(app.sidebar_collapsed);
    app.handle_key(control('b'), 2);
    assert!(!app.sidebar_collapsed);
    app.resize(Rect::new(0, 0, 60, 40));
    assert!(app.sidebar_collapsed);
    app.handle_key(control('b'), 3 * SECOND);
    assert!(app.sidebar_collapsed);
}

#[test]
fn prefix_keys_do_what_the_hint_says() {
    let mut app = workspace(&[(1, None), (2, None)]);
    app.hits.terminal = Rect::new(29, 0, 91, 40);
    match app.handle_prefix_key(press(KeyCode::Char('T')), 0) {
        Action::Spawn(request) => assert_eq!(
            request,
            SpawnRequest { id: 50, rows: 40, cols: 91, beside: Some(0) }
        ),
        _ => panic!("expected a new shell"),
    }
    assert!(matches!(
        app.handle_prefix_key(press(KeyCode::Char('s')), 0),
        Action::Resize
    ));
    assert!(app.sidebar_collapsed && app.manual_collapse);
    app.handle_prefix_key(press(KeyCode::Char('s')), 0);
    assert!(!app.sidebar_collapsed && !app.manual_collapse);
    assert_eq!(
        written(app.handle_prefix_key(control('b'), 0)),
        Some((0, vec![2]))
    );
    assert!(matches!(
        app.handle_prefix_key(press(KeyCode::Char('b')), 0),
        Action::Idle
    ));
    assert!(matches!(
        app.handle_prefix_key(press(KeyCode::Char('w')), 0),
        Action::Close { index: 0 }
    ));
    assert_eq!(ids(&app), vec![2]);
}

#[test]
fn control_q_ends_and_control_t_starts_a_shell() {
    let mut app = workspace(&[(1, None)]);
    assert!(matches!(app.handle_key(control('q'), 0), Action::Quit));
    match app.handle_key(control('t'), 0) {
        Action::Spawn(request) => {
            assert_eq!(request, SpawnRequest { id: 50, rows: 2, cols: 2, beside: Some(0) })
        }
        _ => panic!("expected a new shell"),
    }
    app.add_session(b"/tmp".to_vec(), Some(9));
    assert_eq!(ids(&app), vec![1, 50]);
    assert_eq!(app.active, 1);
    assert_eq!(app.next_session_id, 51);
    assert_eq!(app.sessions[1].cwd, b"/tmp");
}

#[test]
fn releases_of_keys_do_nothing() {
    let mut app = workspace(&[(1, None)]);
    let key = KeyEvent {
        code: KeyCode::Char('x'),
        modifiers: KeyModifiers::empty(),
        kind: KeyEventKind::Release,
    };
    assert!(matches!(app.handle_key(key, 0), Action::Idle));
    assert_eq!(app.sessions[0].input_line, "");
}

#[test]
fn typed_commands_become_the_name_of_the_tab() {
    let mut app = workspace(&[(1, None), (2, None)]);
    for c in " lsx".chars() {
        app.handle_key(press(KeyCode::Char(c)), 0);
    }
    assert_eq!(
        written(app.handle_key(press(KeyCode::Backspace), 0)),
        Some((0, vec![0x7f]))
    );
    assert_eq!(app.sessions[0].input_line, " ls");
    assert_eq!(
        written(app.handle_key(press(KeyCode::Enter), 0)),
        Some((0, vec![b'\r']))
    );
    assert_eq!(app.sessions[0].display_name(), "ls");
    assert!(app.sessions[0].pending);
    assert_eq!(app.sessions[0].input_line, "");
    for c in "inner".chars() {
        app.handle_key(press(KeyCode::Char(c)), 0);
    }
    app.handle_key(press(KeyCode::Enter), 0);
    assert_eq!(app.sessions[0].display_name(), "ls");
    app.sessions[0].foreground = Some(77);
    for c in "next".chars() {
        app.handle_key(press(KeyCode::Char(c)), 0);
    }
    app.handle_key(press(KeyCode::Enter), 0);
    assert_eq!(app.sessions[0].display_name(), "next");
    assert_eq!(app.sessions[1].display_name(), "New Tab");
    app.handle_key(control('c'), 0);
    assert_eq!(app.sessions[0].input_line, "");
    assert!(matches!(app.handle_key(press(KeyCode::Other), 0), Action::Idle));
}

#[test]
fn blank_input_is_no_command() {
    let mut app = workspace(&[(1, None)]);
    app.handle_key(press(KeyCode::Char(' ')), 0);
    app.handle_key(press(KeyCode::Enter), 0);
    assert!(!app.sessions[0].pending);
    assert_eq!(app.sessions[0].display_name(), "New Tab");
}

#[test]
fn running_commands_are_seen() {
    let mut session = Session::fresh(1, b"/".to_vec(), Some(77));
    assert!(!session.is_pending(0));
    session.pending = true;
    assert!(session.is_pending(0));
    session.foreground = Some(78);
    assert!(session.is_pending(0));
    session.foreground = Some(-1);
    assert!(session.is_pending(0));
    session.restore_grace_until = Some(10);
    session.foreground = Some(77);
    assert!(session.is_pending(9));
    assert!(session.pending);
    assert!(!session.is_pending(10));
    assert!(!session.pending);
    assert!(session.is_pending(9));
}

#[test]
fn directories_are_shown_below_home() {
    let mut session = Session::fresh(1, b"/home/u/src".to_vec(), None);
    assert_eq!(session.directory_label(Some(b"/home/u")), "~/src");
    assert_eq!(session.directory_label(Some(b"/home/v")), "/home/u/src");
    assert_eq!(session.directory_label(None), "/home/u/src");
    session.cwd = b"/home/u".to_vec();
    assert_eq!(session.directory_label(Some(b"/home/u")), "~");
    session.cwd = b"/home/u/\xff".to_vec();
    assert_eq!(session.directory_label(Some(b"/home/u")), "~/\u{fffd}");
    assert_eq!(session.directory_label(None), "/home/u/\u{fffd}");
}

#[test]
fn a_tab_is_renamed_and_its_name_cleared() {
    let mut app = workspace(&[(1, None), (2, None)]);
    app.sessions[1].last_command = Some("make".to_string());
    assert!(matches!(
        app.apply_menu_action(2, MenuAction::Rename, 0),
        Action::Idle
    ));
    for c in " api ".chars() {
        app.handle_key(press(KeyCode::Char(c)), 0);
    }
    app.handle_key(control('x'), 0);
    app.handle_key(press(KeyCode::Char('y')), 0);
    app.handle_key(press(KeyCode::Backspace), 0);
    assert!(matches!(app.handle_key(press(KeyCode::Enter), 0), Action::Idle));
    assert!(matches!(app.input_mode, InputMode::Normal));
    assert_eq!(app.sessions[1].display_name(), "api");
    app.apply_menu_action(2, MenuAction::Rename, 0);
    match &app.input_mode {
        InputMode::Rename { session_id: 2, value } => assert_eq!(value, "api"),
        _ => panic!("expected the name to be edited"),
    }
    app.handle_key(press(KeyCode::Esc), 0);
    assert_eq!(app.sessions[1].display_name(), "api");
    app.apply_menu_action(2, MenuAction::ClearName, 0);
    assert_eq!(app.sessions[1].display_name(), "make");
    app.apply_menu_action(2, MenuAction::Rename, 0);
    app.handle_key(press(KeyCode::Enter), 0);
    assert_eq!(app.sessions[1].custom_name, None);
}

#[test]
fn a_group_is_renamed_and_its_name_cleared() {
    let mut app = workspace(&[(1, Some(5))]);
    assert_eq!(app.group_name(5), "Group 5");
    app.apply_menu_action(1, MenuAction::RenameGroup(5), 0);
    for c in "web".chars() {
        app.handle_key(press(KeyCode::Char(c)), 0);
    }
    app.handle_key(press(KeyCode::Enter), 0);
    assert_eq!(app.group_name(5), "web");
    app.apply_menu_action(1, MenuAction::RenameGroup(5), 0);
    for _ in 0..4 {
        app.handle_key(press(KeyCode::Backspace), 0);
    }
    app.handle_key(press(KeyCode::Enter), 0);
    assert_eq!(app.group_name(5), "Group 5");
    app.group_names.insert(5, "x".to_string());
    app.apply_menu_action(1, MenuAction::ClearGroupName(5), 0);
    assert_eq!(app.group_name(5), "Group 5");
    app.apply_menu_action(1, MenuAction::RenameGroup(5), 0);
    app.handle_key(press(KeyCode::Esc), 0);
    assert!(matches!(app.input_mode, InputMode::Normal));
}

#[test]
fn closing_a_tab_drops_its_pane_and_unused_groups() {
    let mut app = workspace(&[(1, Some(5)), (2, Some(5)), (3, Some(6))]);
    app.apply_menu_action(1, MenuAction::LayoutVertical(5), 0);
    app.apply_menu_action(3, MenuAction::LayoutHorizontal(6), 0);
    app.group_names.insert(6, "solo".to_string());
    app.active = 2;
    assert!(matches!(app.close_session(2), Action::Close { index: 2 }));
    assert_eq!(ids(&app), vec![1, 2]);
    assert_eq!(app.active, 1);
    assert!(app.group_names.is_empty());
    assert!(!app.group_layouts.contains_key(&6));
    app.close_session(0);
    assert_eq!(leaf_ids(&app.group_layouts[&5]), vec![2]);
    assert!(matches!(app.close_session(9), Action::Idle));
    assert_eq!(ids(&app), vec![2]);
}

#[test]
fn the_last_tab_asks_before_it_ends_the_program() {
    let mut app = workspace(&[(1, None)]);
    assert!(matches!(app.request_close(0, 0), Action::Idle));
    assert!(matches!(
        app.input_mode,
        InputMode::ConfirmClose { session_id: 1 }
    ));
    app.handle_key(press(KeyCode::Char('x')), 0);
    assert!(matches!(app.input_mode, InputMode::ConfirmClose { .. }));
    app.handle_key(press(KeyCode::Char('n')), 0);
    assert!(matches!(app.input_mode, InputMode::Normal));
    assert!(!app.exit_requested);
    app.request_close(0, 0);
    app.handle_key(press(KeyCode::Char('Y')), 0);
    assert!(app.exit_requested && app.clear_workspace_on_exit);
    assert_eq!(ids(&app), vec![1]);
}

#[test]
fn running_commands_are_closed_after_a_question() {
    let mut app = workspace(&[(1, None), (2, None)]);
    app.sessions[1].pending = true;
    assert!(matches!(app.request_close(1, 0), Action::Idle));
    assert_eq!(ids(&app), vec![1, 2]);
    app.hits.confirm_yes = Rect::new(10, 10, 15, 1);
    app.hits.confirm_no = Rect::new(25, 10, 12, 1);
    app.handle_mouse(left(0, 0), 0);
    assert!(matches!(app.input_mode, InputMode::ConfirmClose { .. }));
    app.handle_mouse(left(25, 10), 0);
    assert!(matches!(app.input_mode, InputMode::Normal));
    app.request_close(1, 0);
    assert!(matches!(
        app.handle_mouse(left(24, 10), 0),
        Action::Close { index: 1 }
    ));
    assert!(matches!(app.input_mode, InputMode::Normal));
    assert_eq!(ids(&app), vec![1]);
    assert!(matches!(app.request_close(7, 0), Action::Idle));
}

#[test]
fn the_menu_of_a_tab_offers_what_can_be_done() {
    let mut app = workspace(&[(1, None), (2, Some(5))]);
    app.sessions[1].custom_name = Some("x".to_string());
    app.open_context_menu(1, 119, 39);
    let menu = app.context_menu.as_ref().expect("the menu is open");
    let labels: Vec<&str> = menu.entries.iter().map(|entry| entry.0.as_str()).collect();
    assert_eq!(
        labels,
        vec![
            "Rename",
            "Clear custom name",
            "Remove from group",
            "Place beside current pane",
            "Place below current pane",
            "Close tab",
        ]
    );
    assert_eq!(menu.session_id, 2);
    assert_eq!(menu.area, Rect::new(92, 32, 28, 8));
    assert_eq!(
        menu.entries[4].1,
        MenuAction::PlaceRelative { target: 1, pane: 2, axis: SplitAxis::Vertical }
    );
    app.open_context_menu(0, 3, 4);
    let menu = app.context_menu.as_ref().expect("the menu is open");
    let labels: Vec<&str> = menu.entries.iter().map(|entry| entry.0.as_str()).collect();
    assert_eq!(labels, vec!["Rename", "Create pane group", "Close tab"]);
    assert_eq!(menu.area, Rect::new(3, 4, 24, 5));
    app.context_menu = None;
    app.open_context_menu(9, 3, 4);
    assert!(app.context_menu.is_none());
}

#[test]
fn the_menu_of_a_group_offers_what_can_be_done() {
    let mut app = workspace(&[(1, None), (2, Some(5)), (3, Some(5))]);
    app.open_group_context_menu(5, 0, 0);
    let menu = app.context_menu.as_ref().expect("the menu is open");
    let labels: Vec<&str> = menu.entries.iter().map(|entry| entry.0.as_str()).collect();
    assert_eq!(
        labels,
        vec![
            "Rename group",
            "Ungroup",
            "Tile side by side",
            "Tile top and bottom",
            "Equalize panes",
        ]
    );
    assert_eq!(menu.session_id, 2);
    assert_eq!(menu.area, Rect::new(0, 0, 24, 7));
    app.group_names.insert(5, "web".to_string());
    app.open_group_context_menu(5, 0, 0);
    let menu = app.context_menu.as_ref().expect("the menu is open");
    assert_eq!(menu.entries[1].1, MenuAction::ClearGroupName(5));
    app.context_menu = None;
    app.open_group_context_menu(99, 0, 0);
    assert!(app.context_menu.is_none());
}

#[test]
fn a_narrow_screen_has_narrow_menus() {
    let mut app = workspace(&[(1, None), (2, None)]);
    app.last_area = Rect::new(0, 0, 20, 4);
    app.open_context_menu(1, 10, 3);
    let menu = app.context_menu.as_ref().expect("the menu is open");
    assert_eq!(menu.area, Rect::new(0, 0, 20, 7));
}

#[test]
fn a_click_in_the_menu_carries_out_its_entry() {
    let mut app = workspace(&[(1, None), (2, None)]);
    app.open_context_menu(1, 10, 10);
    let kind = MouseEventKind::Down(MouseButton::Right);
    app.handle_mouse(mouse(kind, 11, 12), 0);
    assert!(app.context_menu.is_some());
    assert!(matches!(app.handle_mouse(left(11, 10), 0), Action::Idle));
    assert!(app.context_menu.is_none());
    app.open_context_menu(1, 10, 10);
    assert!(matches!(app.handle_mouse(left(11, 12), 0), Action::Resize));
    assert!(app.context_menu.is_none());
    assert_eq!(app.sessions[1].group, Some(20));
    assert_eq!(app.sessions[0].group, Some(20));
    assert_eq!(leaf_ids(&app.group_layouts[&20]), vec![2, 1]);
    assert_eq!(app.next_group_id, 21);
    assert_eq!(app.active, 1);
    app.open_context_menu(1, 10, 10);
    let bottom = app.context_menu.as_ref().map(|menu| menu.area.bottom()).unwrap_or(0);
    assert!(matches!(app.handle_mouse(left(11, bottom - 1), 0), Action::Idle));
}

#[test]
fn a_group_takes_in_the_active_tab_only_if_that_is_free() {
    let mut app = workspace(&[(1, Some(5)), (2, None)]);
    app.apply_menu_action(2, MenuAction::CreateGroup, 0);
    assert_eq!(app.sessions[0].group, Some(5));
    assert_eq!(app.sessions[1].group, Some(20));
    assert_eq!(leaf_ids(&app.group_layouts[&20]), vec![2]);
}

#[test]
fn sessions_leave_their_group() {
    let mut app = workspace(&[(1, Some(5)), (2, Some(5))]);
    app.apply_menu_action(1, MenuAction::LayoutHorizontal(5), 0);
    app.apply_menu_action(1, MenuAction::RemoveFromGroup, 0);
    assert_eq!(app.sessions[0].group, None);
    assert_eq!(leaf_ids(&app.group_layouts[&5]), vec![2]);
    app.group_names.insert(5, "x".to_string());
    app.apply_menu_action(2, MenuAction::RemoveFromGroup, 0);
    assert!(app.group_layouts.is_empty());
    assert!(app.group_names.is_empty());
}

#[test]
fn groups_are_dissolved_tiled_and_equalized() {
    let mut app = workspace(&[(1, Some(5)), (2, Some(5)), (3, Some(6))]);
    app.apply_menu_action(1, MenuAction::LayoutVertical(5), 0);
    assert!(matches!(
        app.group_layouts[&5],
        PaneLayout::Split { axis: SplitAxis::Vertical, ratio: 50, .. }
    ));
    if let Some(PaneLayout::Split { ratio, .. }) = app.group_layouts.get_mut(&5) {
        *ratio = 20;
    }
    app.apply_menu_action(1, MenuAction::EqualizeGroup(5), 0);
    assert!(matches!(app.group_layouts[&5], PaneLayout::Split { ratio: 50, .. }));
    assert!(matches!(
        app.apply_menu_action(1, MenuAction::EqualizeGroup(44), 0),
        Action::Resize
    ));
    app.group_names.insert(5, "x".to_string());
    app.apply_menu_action(3, MenuAction::Ungroup(5), 0);
    assert_eq!(app.sessions[0].group, None);
    assert_eq!(app.sessions[1].group, None);
    assert_eq!(app.sessions[2].group, Some(6));
    assert!(app.group_layouts.is_empty() && app.group_names.is_empty());
    assert!(matches!(
        app.apply_menu_action(99, MenuAction::Ungroup(6), 0),
        Action::Idle
    ));
    assert_eq!(app.sessions[2].group, Some(6));
}

#[test]
fn panes_are_placed_beside_each_other() {
    let mut app = workspace(&[(1, None), (2, None), (3, Some(5))]);
    app.apply_menu_action(3, MenuAction::LayoutVertical(5), 0);
    let action = MenuAction::PlaceRelative { target: 1, pane: 2, axis: SplitAxis::Vertical };
    assert!(matches!(app.apply_menu_action(2, action, 0), Action::Resize));
    assert_eq!(app.sessions[0].group, Some(20));
    assert_eq!(app.sessions[1].group, Some(20));
    assert_eq!(leaf_ids(&app.group_layouts[&20]), vec![1, 2]);
    app.place_relative_to_current(1, 3, SplitAxis::Horizontal);
    assert_eq!(leaf_ids(&app.group_layouts[&20]), vec![1, 3, 2]);
    assert!(!app.group_layouts.contains_key(&5));
    assert_eq!(app.active, 0);
    app.place_relative_to_current(3, 1, SplitAxis::Horizontal);
    assert_eq!(leaf_ids(&app.group_layouts[&20]), vec![3, 1, 2]);
    assert_eq!(app.active, 2);
    assert!(matches!(
        app.place_relative_to_current(3, 3, SplitAxis::Horizontal),
        Action::Idle
    ));
    assert!(matches!(
        app.place_relative_to_current(3, 98, SplitAxis::Horizontal),
        Action::Idle
    ));
    assert!(matches!(
        app.place_relative_to_current(98, 3, SplitAxis::Horizontal),
        Action::Idle
    ));
    app.place_pane_relative(20, 77, 2, SplitAxis::Vertical);
    assert_eq!(leaf_ids(&app.group_layouts[&20]), vec![3, 1, 2]);
}

#[test]
fn dividers_are_dragged() {
    let mut app = workspace(&[(1, Some(5)), (2, Some(5))]);
    app.apply_menu_action(1, MenuAction::LayoutHorizontal(5), 0);
    app.hits.split_dividers = vec![SplitHit {
        group: 5,
        path: Vec::new(),
        axis: SplitAxis::Horizontal,
        divider: Rect::new(60, 0, 1, 40),
        container: Rect::new(20, 0, 100, 40),
    }];
    let drag = |column: u16| mouse(MouseEventKind::Drag(MouseButton::Left), column, 5);
    assert!(matches!(app.handle_mouse(drag(50), 0), Action::Idle));
    app.handle_mouse(left(60, 3), 0);
    for (column, wanted) in [(50, 30), (20, 10), (0, 10), (119, 90), (75, 55)] {
        assert!(matches!(app.handle_mouse(drag(column), 0), Action::Resize));
        match &app.group_layouts[&5] {
            PaneLayout::Split { ratio, .. } => assert_eq!(*ratio, wanted),
            PaneLayout::Leaf(_) => panic!("expected a split"),
        }
    }
    assert_eq!(leaf_ids(&app.group_layouts[&5]), vec![1, 2]);
    app.handle_mouse(mouse(MouseEventKind::Up(MouseButton::Left), 1, 1), 0);
    assert!(matches!(app.handle_mouse(drag(30), 0), Action::Idle));
    app.handle_mouse(left(60, 3), 0);
    app.group_layouts.insert(5, PaneLayout::Leaf(1));
    assert!(matches!(app.handle_mouse(drag(30), 0), Action::Idle));
    assert_eq!(leaf_ids(&app.group_layouts[&5]), vec![1]);
}

#[test]
fn clicks_reach_the_parts_of_the_screen() {
    let mut app = workspace(&[(1, None), (2, Some(5)), (3, Some(5))]);
    app.hits.plus = Rect::new(26, 0, 2, 1);
    app.hits.toggle = Rect::new(26, 39, 2, 1);
    app.hits.tabs = vec![
        TabHit { index: 0, body: Rect::new(0, 2, 28, 2), close: Rect::new(25, 2, 2, 1) },
        TabHit { index: 1, body: Rect::new(0, 5, 28, 2), close: Rect::new(25, 5, 2, 1) },
    ];
    app.hits.groups = vec![(5, Rect::new(0, 4, 28, 1))];
    app.hits.panes = vec![(2, Rect::new(30, 0, 40, 40))];
    assert!(matches!(app.handle_mouse(left(26, 0), 0), Action::Spawn(_)));
    assert!(matches!(app.handle_mouse(left(26, 39), 0), Action::Resize));
    assert!(app.manual_collapse);
    assert!(matches!(app.handle_mouse(left(3, 6), 0), Action::Resize));
    assert_eq!(app.active, 1);
    assert!(matches!(app.handle_mouse(left(40, 6), 0), Action::Idle));
    assert_eq!(app.active, 2);
    assert!(matches!(app.handle_mouse(left(29, 20), 0), Action::Idle));
    let right = |column, row| mouse(MouseEventKind::Down(MouseButton::Right), column, row);
    app.handle_mouse(right(3, 2), 0);
    assert_eq!(app.context_menu.as_ref().map(|menu| menu.session_id), Some(1));
    app.context_menu = None;
    app.handle_mouse(right(3, 4), 0);
    assert_eq!(app.context_menu.as_ref().map(|menu| menu.session_id), Some(2));
    app.context_menu = None;
    app.handle_mouse(right(60, 30), 0);
    assert!(app.context_menu.is_none());
    assert!(matches!(
        app.handle_mouse(left(25, 2), 0),
        Action::Close { index: 0 }
    ));
    assert_eq!(ids(&app), vec![2, 3]);
}

#[test]
fn the_wheel_goes_to_the_pane_below_it() {
    let mut app = workspace(&[(1, None), (2, None)]);
    app.hits.panes = vec![(1, Rect::new(30, 5, 40, 20))];
    match app.handle_mouse(mouse(MouseEventKind::ScrollUp, 33, 9), 0) {
        Action::Wheel { index, up, column, row } => {
            assert_eq!((index, up, column, row), (1, true, 3, 4))
        }
        _ => panic!("expected a wheel step"),
    }
    assert_eq!(app.active, 1);
    assert!(matches!(
        app.handle_mouse(mouse(MouseEventKind::ScrollDown, 33, 9), 0),
        Action::Wheel { up: false, .. }
    ));
    assert!(matches!(
        app.handle_mouse(mouse(MouseEventKind::ScrollDown, 3, 9), 0),
        Action::Idle
    ));
    assert!(matches!(
        app.handle_mouse(mouse(MouseEventKind::Other, 33, 9), 0),
        Action::Idle
    ));
}

#[test]
fn pasted_lines_are_commands() {
    let mut app = workspace(&[(1, None)]);
    assert_eq!(
        written(app.handle_paste("ec", 0)),
        Some((0, b"ec".to_vec()))
    );
    assert_eq!(app.sessions[0].input_line, "ec");
    assert_eq!(
        written(app.handle_paste("one\r\n two \r\r\nrest", 0)),
        Some((0, b"one\r\n two \r\r\nrest".to_vec()))
    );
    assert_eq!(app.sessions[0].input_line, "rest");
    assert_eq!(app.sessions[0].last_command.as_deref(), Some("rest"));
    assert!(app.sessions[0].pending);
    app.sessions[0].pending = false;
    app.handle_paste("make test\n\n", 0);
    assert_eq!(app.sessions[0].last_command.as_deref(), Some("make test"));
    assert_eq!(app.sessions[0].input_line, "");
    app.handle_paste("other\n", 0);
    assert_eq!(app.sessions[0].last_command.as_deref(), Some("make test"));
    app.sessions[0].pending = false;
    app.handle_paste("\n \n", 0);
    assert!(!app.sessions[0].pending);
}

#[test]
fn events_without_a_session_go_nowhere() {
    let mut app = workspace(&[(1, None)]);
    app.active = 4;
    assert!(matches!(app.handle_key(press(KeyCode::Char('x')), 0), Action::Idle));
    assert!(matches!(app.handle_paste("x", 0), Action::Idle));
    assert!(app.resize(Rect::new(0, 0, 100, 30)).expect("panes fit").is_empty());
    assert_eq!(app.spawn_request().beside, None);
}

#[test]
fn narrow_screens_collapse_the_sidebar() {
    let mut app = workspace(&[(1, None)]);
    let panes = app.resize(Rect::new(0, 0, 72, 30)).expect("panes fit");
    assert!(!app.sidebar_collapsed);
    assert_eq!(panes, vec![(0, Rect::new(29, 0, 43, 30))]);
    let panes = app.resize(Rect::new(0, 0, 71, 30)).expect("panes fit");
    assert!(app.sidebar_collapsed);
    assert_eq!(panes, vec![(0, Rect::new(4, 0, 67, 30))]);
}

#[test]
fn sessions_are_found_by_their_id() {
    let app = workspace(&[(4, None), (2, None)]);
    assert_eq!(session_position(&app.sessions, 2), Some(1));
    assert_eq!(session_position(&app.sessions, 3), None);
}

fn assert_arranged(app: &App) {
    for (group, layout) in &app.group_layouts {
        let mut leaves = leaf_ids(layout);
        let mut members: Vec<u64> = app
            .sessions
            .iter()
            .filter(|session| session.group == Some(*group))
            .map(|session| session.id)
            .collect();
        leaves.sort();
        members.sort();
        assert_eq!(leaves, members);
    }
}

#[test]
fn layouts_always_show_the_members_of_their_group() {
    let mut app = workspace(&[(1, None), (2, None), (3, None), (4, None), (5, None)]);
    let place = |target, pane, axis| MenuAction::PlaceRelative { target, pane, axis };
    for (id, action) in [
        (2, MenuAction::CreateGroup),
        (3, place(2, 3, SplitAxis::Vertical)),
        (4, place(3, 4, SplitAxis::Horizontal)),
        (5, MenuAction::CreateGroup),
        (4, place(5, 4, SplitAxis::Vertical)),
        (2, MenuAction::EqualizeGroup(20)),
        (2, MenuAction::LayoutVertical(20)),
        (3, place(1, 3, SplitAxis::Horizontal)),
        (1, MenuAction::RemoveFromGroup),
        (4, MenuAction::Close),
        (2, place(5, 2, SplitAxis::Horizontal)),
        (5, MenuAction::Ungroup(20)),
    ] {
        app.apply_menu_action(id, action, 0);
        assert_arranged(&app);
    }
    assert_eq!(ids(&app), vec![1, 2, 3, 5]);
}

#[test]
fn events_that_cannot_be_handled_are_told() {
    let mut app = workspace(&[(1, None), (2, None)]);
    let wheel = mouse(MouseEventKind::ScrollUp, 33, 9);
    app.hits.panes = vec![(7, Rect::new(30, 5, 40, 20))];
    assert!(!app.accepts_mouse(wheel));
    app.hits.panes[0].0 = 1;
    assert!(app.accepts_mouse(wheel));
    app.hits.tabs = vec![TabHit {
        index: 1,
        body: Rect::new(0, 2, 28, 2),
        close: Rect::default(),
    }];
    let right = mouse(MouseEventKind::Down(MouseButton::Right), 3, 2);
    assert!(app.accepts_mouse(right));
    app.active = 9;
    assert!(!app.accepts_mouse(right));
    app.active = 0;
    app.next_group_id = u64::MAX;
    app.open_context_menu(1, 10, 10);
    assert!(!app.accepts_mouse(left(11, 12)));
    assert!(!app.accepts_mouse(left(11, 13)));
    assert!(app.accepts_mouse(left(11, 11)));
    assert!(app.accepts_mouse(left(0, 0)));
    assert!(app.accepts_key(press(KeyCode::F(12)), 0));
    assert!(!app.accepts_key(press(KeyCode::F(250)), 0));
    app.prefix_started = Some(0);
    assert!(app.accepts_key(press(KeyCode::F(250)), SECOND));
    assert!(!app.accepts_key(press(KeyCode::F(250)), SECOND + 1));
}
