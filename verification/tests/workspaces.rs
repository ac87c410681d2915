//! Workspaces that are kept, and what is drawn of them.

use plexr::app::{App, InputMode};
use plexr::draw::{Draw, Paragraph};
use plexr::events::{KeyCode, KeyEvent, KeyModifiers, MouseButton, MouseEvent, MouseEventKind};
use plexr::geometry::Rect;
use plexr::layout::PaneLayout;
use plexr::style::{Color, Style};
use plexr::ui::render;
use plexr::workspace::{
    launch_list, usable_snapshot, PersistedSession, Started, WorkspaceSnapshot, RESTORE_GRACE,
    WORKSPACE_VERSION,
};
use std::collections::HashMap;

const AREA: Rect = Rect { x: 0, y: 0, width: 100, height: 30 };

fn started(count: usize) -> Vec<Started> {
    (0..count)
        .map(|i| Started { cwd: format!("/work/{i}").into_bytes(), shell_pid: Some(70 + i as u32) })
        .collect()
}

fn snapshot() -> WorkspaceSnapshot {
    WorkspaceSnapshot {
        version: WORKSPACE_VERSION,
        active_session: 9,
        next_session_id: 4,
        next_group_id: 8,
        sessions: vec![
            PersistedSession {
                id: 3,
                custom_name: Some("server".to_string()),
                last_command: Some("old".to_string()),
                cwd: b"/tmp/a".to_vec(),
                group: Some(7),
                running_command: None,
            },
            PersistedSession {
                id: 9,
                custom_name: None,
                last_command: Some("cargo run".to_string()),
                cwd: b"/tmp/b".to_vec(),
                group: None,
                running_command: Some("cargo run".to_string()),
            },
        ],
        group_names: HashMap::from([(7, "web".to_string()), (6, "gone".to_string())]),
        group_layouts: HashMap::from([(7, PaneLayout::Leaf(3)), (6, PaneLayout::Leaf(1))]),
    }
}

fn fresh() -> App {
    App::new(AREA, "kitty".to_string(), None, started(1), 0).0
}

fn texts(draws: &[Draw]) -> Vec<(Rect, String)> {
    draws
        .iter()
        .filter_map(|step| match step {
            Draw::Text(paragraph) => Some((paragraph.area, plain(paragraph))),
            _ => None,
        })
        .collect()
}

fn plain(paragraph: &Paragraph) -> String {
    paragraph
        .lines
        .iter()
        .map(|line| line.iter().map(|span| span.text.as_str()).collect::<String>())
        .collect::<Vec<_>>()
        .join("\n")
}

fn find<'a>(draws: &'a [Draw], text: &str) -> &'a Paragraph {
    draws
        .iter()
        .find_map(|step| match step {
            Draw::Text(paragraph) if plain(paragraph) == text => Some(paragraph),
            _ => None,
        })
        .expect("the text is drawn")
}

#[test]
fn snapshots_of_other_versions_are_not_used() {
    assert!(usable_snapshot(None).is_none());
    assert!(usable_snapshot(Some(snapshot())).is_some());
    let mut other = snapshot();
    other.version = 2;
    assert!(usable_snapshot(Some(other)).is_none());
}

#[test]
fn shells_are_started_for_the_kept_sessions() {
    let list = launch_list(&Some(snapshot()), AREA);
    assert_eq!(list.len(), 2);
    assert_eq!((list[0].id, list[0].rows, list[0].cols), (3, 30, 71));
    assert_eq!(list[1].cwd, Some(b"/tmp/b".to_vec()));
    let list = launch_list(&None, Rect::new(0, 0, 5, 1));
    assert_eq!(list.len(), 1);
    assert_eq!((list[0].id, list[0].rows, list[0].cols), (1, 2, 2));
    assert_eq!(list[0].cwd, None);
}

#[test]
fn a_first_start_has_one_session() {
    let (app, writes) = App::new(AREA, "kitty".to_string(), None, started(1), 5);
    assert!(writes.is_empty());
    assert_eq!(app.sessions.len(), 1);
    assert_eq!(app.sessions[0].id, 1);
    assert_eq!(app.sessions[0].cwd, b"/work/0");
    assert_eq!(app.next_session_id, 2);
    assert_eq!(app.next_group_id, 1);
    assert_eq!(app.active, 0);
    assert_eq!(app.host_terminal, "kitty");
}

#[test]
fn kept_sessions_are_restored_and_their_commands_restarted() {
    let (mut app, writes) = App::new(AREA, "kitty".to_string(), Some(snapshot()), started(2), 5);
    assert_eq!(writes, vec![(1, b"cargo run\r".to_vec())]);
    assert_eq!(app.active, 1);
    assert_eq!(app.next_session_id, 10);
    assert_eq!(app.next_group_id, 8);
    assert_eq!(app.sessions[0].custom_name.as_deref(), Some("server"));
    assert_eq!(app.sessions[0].last_command, None);
    assert_eq!(app.sessions[0].group, Some(7));
    assert!(!app.sessions[0].pending);
    assert_eq!(app.sessions[1].last_command.as_deref(), Some("cargo run"));
    assert_eq!(app.sessions[1].restore_grace_until, Some(5 + RESTORE_GRACE));
    assert_eq!(app.sessions[1].shell_pid, Some(71));
    app.sessions[1].foreground = Some(71);
    assert!(app.sessions[1].is_pending(5 + RESTORE_GRACE - 1));
    assert!(!app.sessions[1].is_pending(5 + RESTORE_GRACE));
    assert_eq!(app.group_names.get(&7).map(String::as_str), Some("web"));
    assert!(!app.group_names.contains_key(&6));
    assert!(!app.group_layouts.contains_key(&6));
}

#[test]
fn a_workspace_comes_back_from_its_own_snapshot() {
    let (mut app, _) = App::new(AREA, "kitty".to_string(), Some(snapshot()), started(2), 5);
    let kept = app.workspace_snapshot(6);
    assert_eq!(kept.version, 1);
    assert_eq!(kept.active_session, 9);
    assert_eq!(kept.sessions[1].running_command.as_deref(), Some("cargo run"));
    assert_eq!(kept.sessions[0].running_command, None);
    assert_eq!(kept.sessions[0].cwd, b"/work/0");
    let (back, writes) = App::new(AREA, "kitty".to_string(), Some(kept), started(2), 7);
    assert_eq!(writes.len(), 1);
    for (own, other) in back.sessions.iter().zip(app.sessions.iter()) {
        assert_eq!(own.id, other.id);
        assert_eq!(own.custom_name, other.custom_name);
        assert_eq!(own.group, other.group);
    }
    assert_eq!(back.active, app.active);
    assert_eq!(back.next_session_id, app.next_session_id);
    assert_eq!(back.next_group_id, app.next_group_id);
    assert_eq!(back.group_names, app.group_names);
    assert!(matches!(back.group_layouts.get(&7), Some(PaneLayout::Leaf(3))));
}

#[test]
fn snapshots_note_which_commands_have_ended() {
    let (mut app, _) = App::new(AREA, "kitty".to_string(), Some(snapshot()), started(2), 0);
    app.sessions[1].foreground = Some(71);
    let kept = app.workspace_snapshot(2 * RESTORE_GRACE);
    assert_eq!(kept.sessions[1].running_command, None);
    assert_eq!(kept.sessions[1].last_command.as_deref(), Some("cargo run"));
    assert!(!app.sessions[1].pending);
    app.active = 9;
    assert_eq!(app.workspace_snapshot(0).active_session, 0);
}

#[test]
fn nothing_is_kept_of_a_closed_workspace() {
    let mut app = fresh();
    app.close_session(0);
    let kept = app.workspace_snapshot(0);
    assert_eq!(kept.sessions.len(), 0);
    assert_eq!((kept.active_session, kept.next_session_id, kept.next_group_id), (0, 1, 1));
    let (back, writes) = App::new(AREA, "kitty".to_string(), Some(kept), started(1), 0);
    assert!(writes.is_empty());
    assert_eq!(back.sessions[0].id, 1);
    assert_eq!(back.next_session_id, 2);
}

#[test]
fn the_expanded_sidebar_shows_names_and_directories() {
    let (mut app, _) = App::new(AREA, "kitty".to_string(), Some(snapshot()), started(2), 0);
    app.spinner_tick = 9;
    let draws = render(&mut app, AREA, Some(b"/work"), 1);
    assert_eq!(app.spinner_tick, 10);
    assert_eq!(
        texts(&draws),
        vec![
            (Rect::new(0, 0, 28, 1), " kitty".to_string()),
            (Rect::new(0, 0, 28, 1), "+".to_string()),
            (Rect::new(0, 2, 28, 1), " ▾ web".to_string()),
            (Rect::new(0, 3, 28, 1), " │   server".to_string()),
            (Rect::new(25, 3, 2, 1), "×".to_string()),
            (Rect::new(0, 4, 28, 1), " └   ~/0".to_string()),
            (Rect::new(0, 5, 28, 1), " ⠹ cargo run".to_string()),
            (Rect::new(25, 5, 2, 1), "×".to_string()),
            (Rect::new(0, 6, 28, 1), "   ~/1".to_string()),
            (Rect::new(0, 29, 28, 1), "«".to_string()),
        ]
    );
    assert_eq!(app.hits.sidebar, Rect::new(0, 0, 29, 30));
    assert_eq!(app.hits.terminal, Rect::new(29, 0, 71, 30));
    assert_eq!(app.hits.plus, Rect::new(26, 0, 2, 1));
    assert_eq!(app.hits.toggle, Rect::new(26, 29, 2, 1));
    assert_eq!(app.hits.groups, vec![(7, Rect::new(0, 2, 28, 1))]);
    assert_eq!(app.hits.tabs.len(), 2);
    assert_eq!(app.hits.tabs[1].index, 1);
    assert_eq!(app.hits.tabs[1].body, Rect::new(0, 5, 28, 2));
    assert_eq!(app.hits.tabs[1].close, Rect::new(25, 5, 2, 1));
    assert_eq!(app.hits.panes, vec![(1, Rect::new(29, 0, 71, 30))]);
    let edge = draws
        .iter()
        .filter(|step| matches!(step, Draw::Symbol { x: 28, symbol: '│', .. }))
        .count();
    assert_eq!(edge, 30);
    assert!(draws
        .iter()
        .any(|step| matches!(step, Draw::Terminal { index: 1, cursor: true, .. })));
    let active = find(&draws, " ⠹ cargo run");
    assert_eq!(
        active.style,
        Style::plain().fg(Color::Rgb(205, 211, 240)).bg(Color::Rgb(35, 36, 54)).bold()
    );
    assert!(!active.right);
    assert!(find(&draws, "+").right);
}

#[test]
fn the_spinner_turns() {
    let (mut app, _) = App::new(AREA, "kitty".to_string(), Some(snapshot()), started(2), 0);
    let mut phases = String::new();
    for tick in (4..54).step_by(5) {
        app.spinner_tick = tick;
        let draws = render(&mut app, AREA, None, 1);
        let line = texts(&draws)
            .into_iter()
            .find(|(_, text)| text.ends_with("cargo run"))
            .expect("the tab is drawn");
        phases.extend(line.1.chars().nth(1));
    }
    assert_eq!(phases, "⠙⠹⠸⠼⠴⠦⠧⠇⠏⠋");
    app.spinner_tick = usize::MAX;
    render(&mut app, AREA, None, 1);
    assert_eq!(app.spinner_tick, 0);
}

#[test]
fn the_collapsed_sidebar_shows_numbers() {
    let (mut app, _) = App::new(AREA, "kitty".to_string(), Some(snapshot()), started(2), 0);
    app.resize(Rect::new(0, 0, 60, 30));
    let draws = render(&mut app, Rect::new(0, 0, 60, 30), None, 1);
    assert_eq!(
        texts(&draws),
        vec![
            (Rect::new(0, 2, 3, 1), " 1 ".to_string()),
            (Rect::new(0, 3, 3, 1), " 2 ".to_string()),
            (Rect::new(0, 29, 3, 1), "»".to_string()),
        ]
    );
    assert_eq!(app.hits.tabs[1].body, Rect::new(0, 3, 3, 1));
    assert_eq!(app.hits.tabs[1].close, Rect::default());
    assert!(app.hits.groups.is_empty());
    assert_eq!(
        find(&draws, " 1 ").lines[0][0].style,
        Style::plain().fg(Color::DarkGray)
    );
    assert_eq!(
        find(&draws, " 2 ").lines[0][0].style,
        Style::plain().fg(Color::Black).bg(Color::Rgb(131, 166, 229)).bold()
    );
}

#[test]
fn tabs_without_room_are_not_shown() {
    let mut app = fresh();
    for i in 0..20 {
        app.add_session(format!("/d{i}").into_bytes(), None);
    }
    let area = Rect::new(0, 0, 100, 11);
    render(&mut app, area, None, 0);
    assert_eq!(app.hits.tabs.len(), 3);
    assert_eq!(app.hits.tabs[2].body, Rect::new(0, 6, 28, 2));
    app.sidebar_collapsed = true;
    render(&mut app, area, None, 0);
    assert_eq!(app.hits.tabs.len(), 9);
    render(&mut app, Rect::new(0, 0, 100, 1), None, 0);
    assert!(app.hits.tabs.is_empty());
}

#[test]
fn a_click_on_a_drawn_tab_selects_it() {
    let (mut app, _) = App::new(AREA, "kitty".to_string(), Some(snapshot()), started(2), 0);
    for collapsed in [false, true] {
        app.sidebar_collapsed = collapsed;
        render(&mut app, AREA, None, 1);
        for hit in app.hits.tabs.clone() {
            let event = MouseEvent {
                kind: MouseEventKind::Down(MouseButton::Left),
                column: hit.body.x,
                row: hit.body.bottom() - 1,
            };
            app.handle_mouse(event, 1);
            assert_eq!(app.active, hit.index);
            app.sidebar_collapsed = collapsed;
        }
    }
}

#[test]
fn panes_and_dividers_of_the_active_group_are_drawn() {
    let (mut app, _) = App::new(AREA, "kitty".to_string(), Some(snapshot()), started(2), 0);
    app.sessions[1].group = Some(7);
    app.group_layouts.clear();
    let draws = render(&mut app, AREA, None, 1);
    assert_eq!(
        app.hits.panes,
        vec![(0, Rect::new(29, 0, 35, 30)), (1, Rect::new(65, 0, 35, 30))]
    );
    assert_eq!(app.hits.split_dividers.len(), 1);
    assert_eq!(app.hits.split_dividers[0].divider, Rect::new(64, 0, 1, 30));
    let cells = draws
        .iter()
        .filter(|step| matches!(step, Draw::Symbol { x: 64, symbol: '│', .. }))
        .count();
    assert_eq!(cells, 30);
    assert!(draws
        .iter()
        .any(|step| matches!(step, Draw::Terminal { index: 0, cursor: false, .. })));
    let area = Rect::new(0, 0, 100, 31);
    app.apply_menu_action(3, plexr::app::MenuAction::LayoutVertical(7), 1);
    let draws = render(&mut app, area, None, 1);
    let cells = draws
        .iter()
        .filter(|step| matches!(step, Draw::Symbol { y: 15, symbol: '─', .. }))
        .count();
    assert_eq!(cells, 71);
}

#[test]
fn the_hint_is_shown_while_the_prefix_key_waits() {
    let mut app = fresh();
    app.prefix_started = Some(10);
    let hint = " prefix: 1-0 tab  ←/→ cycle  h/j/k/l pane  T new  W close  s sidebar ";
    let length = hint.chars().count() as u16;
    let draws = render(&mut app, AREA, None, 10 + 1_000_000_000);
    assert_eq!(
        find(&draws, hint).area,
        Rect::new(100 - length, 29, length, 1)
    );
    let draws = render(&mut app, AREA, None, 11 + 1_000_000_000);
    assert!(texts(&draws).iter().all(|(_, text)| text != hint));
    let draws = render(&mut app, Rect::new(0, 0, 50, 30), None, 0);
    assert_eq!(find(&draws, hint).area, Rect::new(29, 29, 21, 1));
}

#[test]
fn menus_and_names_are_drawn_above_the_rest() {
    let mut app = fresh();
    app.open_context_menu(0, 40, 10);
    let draws = render(&mut app, AREA, None, 0);
    let menu = find(&draws, " Rename\n Create pane group\n Close tab");
    assert_eq!(menu.area, Rect::new(40, 10, 24, 5));
    assert!(menu.frame.as_ref().is_some_and(|frame| frame.title.is_empty()));
    app.context_menu = None;
    app.input_mode = InputMode::Rename { session_id: 1, value: "abc".to_string() };
    let draws = render(&mut app, AREA, None, 0);
    let window = find(&draws, "abc");
    assert_eq!(window.area, Rect::new(29, 13, 42, 3));
    assert!(window.frame.as_ref().is_some_and(|frame| frame.title == " Rename tab "));
    assert!(matches!(draws.last(), Some(Draw::Cursor { x: 33, y: 14 })));
    app.input_mode = InputMode::RenameGroup { group_id: 1, value: "x".repeat(60) };
    let draws = render(&mut app, AREA, None, 0);
    assert!(matches!(draws.last(), Some(Draw::Cursor { x: 69, y: 14 })));
    app.input_mode = InputMode::Rename { session_id: 1, value: "a\nb".to_string() };
    let draws = render(&mut app, AREA, None, 0);
    assert_eq!(find(&draws, "a\nb").lines.len(), 2);
    app.input_mode = InputMode::Rename { session_id: 1, value: String::new() };
    let draws = render(&mut app, AREA, None, 0);
    assert_eq!(find(&draws, "").lines.len(), 1);
}

#[test]
fn closing_is_confirmed_in_a_window() {
    let mut app = fresh();
    app.request_close(0, 0);
    let draws = render(&mut app, AREA, None, 0);
    let window = find(
        &draws,
        "\n Exit this workspace?\n This is the last tab. Are you sure?\n\n   Exit [Y]     Cancel [N] ",
    );
    assert_eq!(window.area, Rect::new(24, 11, 52, 7));
    assert_eq!(app.hits.confirm_yes, Rect::new(27, 16, 15, 1));
    assert_eq!(app.hits.confirm_no, Rect::new(42, 16, 12, 1));
    app.add_session(b"/".to_vec(), None);
    app.sessions[0].custom_name = Some("x".repeat(60));
    let draws = render(&mut app, AREA, None, 0);
    let question = format!(
        "\n Close “{}…”?\n A command is still running. Are you sure?\n\n   Close [Y]    Cancel [N] ",
        "x".repeat(39)
    );
    find(&draws, &question);
    app.input_mode = InputMode::ConfirmClose { session_id: 99 };
    let draws = render(&mut app, AREA, None, 0);
    find(
        &draws,
        "\n Close “tab”?\n A command is still running. Are you sure?\n\n   Close [Y]    Cancel [N] ",
    );
    app.handle_key(KeyEvent::new(KeyCode::Esc, KeyModifiers::empty()), 0);
    render(&mut app, AREA, None, 0);
    assert_eq!(app.hits.confirm_yes, Rect::default());
}

#[test]
fn windows_beyond_the_coordinates_cannot_be_drawn() {
    let mut app = fresh();
    assert!(app.can_render(AREA));
    assert!(app.can_render(Rect::new(65535, 65535, 0, 0)));
    app.input_mode = InputMode::Rename { session_id: 1, value: String::new() };
    assert!(app.can_render(AREA));
    assert!(!app.can_render(Rect::new(65535, 0, 0, 0)));
    app.input_mode = InputMode::ConfirmClose { session_id: 1 };
    assert!(app.can_render(AREA));
    assert!(!app.can_render(Rect::new(0, 65531, 80, 4)));
}

#[test]
fn a_narrow_screen_starts_with_the_sidebar_collapsed() {
    for (width, collapsed) in [(20, true), (71, true), (72, false), (200, false)] {
        let area = Rect::new(0, 0, width, 30);
        let (app, _) = App::new(area, "kitty".to_string(), None, started(1), 0);
        assert_eq!(app.sidebar_collapsed, collapsed);
        assert!(!app.manual_collapse);
        let left = if collapsed { 4 } else { 29 };
        let list = launch_list(&None, area);
        assert_eq!((list[0].rows, list[0].cols), (30, width - left));
    }
}

#[test]
fn directories_need_not_be_text() {
    let mut list = started(1);
    list[0].cwd = b"/work/\xff".to_vec();
    let (mut app, _) = App::new(AREA, "kitty".to_string(), None, list, 0);
    let draws = render(&mut app, AREA, Some(b"/work"), 0);
    find(&draws, "   ~/\u{fffd}");
    assert_eq!(app.workspace_snapshot(0).sessions[0].cwd, b"/work/\xff");
}
