//! Bytes for terminals, terminal screens, and the terminal around the program.

use plexr::emulator::{take_output, Emulator, SCROLLBACK_ROWS};
use plexr::events::{KeyCode, KeyEvent, KeyModifiers};
use plexr::geometry::Rect;
use plexr::platform::{
    detect_terminal_from_env, detect_terminal_from_process_tree, host_terminal_name,
    osc7_directory, parent_process, terminal_display_name, terminal_of_process,
    update_cwd_from_osc7, workspace_state_path,
};
use plexr::screen::{
    draw_cell, pane_cursor, pane_size, resize_screen, scroll_target, scroll_viewport,
    terminal_view, turn_wheel, vt_color, wheel_input, wheel_report, ScreenCell, VtColor,
};
use plexr::style::Color;
use plexr::timing::{is_due, DRAW_INTERVAL, SAVE_INTERVAL};
use plexr::terminal::{encode_key, encode_mouse_wheel, MouseProtocolEncoding, MouseProtocolMode};

fn key(code: KeyCode) -> Option<Vec<u8>> {
    encode_key(KeyEvent::new(code, KeyModifiers::empty()))
}

fn output(terminal: &mut Emulator, bytes: &[u8]) {
    let mut cwd = b"/".to_vec();
    take_output(terminal, &mut cwd, bytes);
    assert_eq!(cwd, b"/");
}

/// The text of a row in view.
fn row_text(terminal: &Emulator, row: u16, width: u16) -> String {
    terminal_view(terminal.screen(), Rect::new(0, 0, width, row + 1))
        .iter()
        .filter(|cell| cell.y == row)
        .map(|cell| cell.symbol.as_str())
        .collect()
}

#[test]
fn control_keys_are_forwarded_as_terminal_bytes() {
    let key = KeyEvent::new(KeyCode::Char('c'), KeyModifiers::control());
    assert_eq!(encode_key(key), Some(vec![3]));
}

#[test]
fn osc7_updates_the_displayed_directory() {
    let mut cwd = b"/old".to_vec();
    update_cwd_from_osc7(b"\x1b]7;file://host/home/user/project\x07", &mut cwd);
    assert_eq!(cwd, b"/home/user/project");
}

#[test]
fn host_terminal_uses_explicit_environment_markers() {
    let variables =
        std::collections::HashMap::from([("WEZTERM_PANE".to_string(), "7".to_string())]);
    assert_eq!(
        detect_terminal_from_env(|name| variables.get(name).cloned()),
        Some("WezTerm".to_string())
    );
}

#[test]
fn term_program_names_are_normalized_for_display() {
    let variables =
        std::collections::HashMap::from([("TERM_PROGRAM".to_string(), "vscode".to_string())]);
    assert_eq!(
        detect_terminal_from_env(|name| variables.get(name).cloned()),
        Some("VS Code".to_string())
    );
}

#[test]
fn sgr_mouse_wheel_uses_one_based_pane_coordinates() {
    assert_eq!(
        encode_mouse_wheel(MouseProtocolEncoding::Sgr, true, 4, 2),
        b"\x1b[<64;5;3M"
    );
    assert_eq!(
        encode_mouse_wheel(MouseProtocolEncoding::Sgr, false, 0, 0),
        b"\x1b[<65;1;1M"
    );
}

#[test]
fn legacy_mouse_wheel_uses_x10_encoding() {
    assert_eq!(
        encode_mouse_wheel(MouseProtocolEncoding::Default, true, 0, 0),
        vec![0x1b, b'[', b'M', 96, 33, 33]
    );
}

#[test]
fn vt100_scrollback_stores_scrolled_content() {
    let mut terminal = Emulator::new(5, 40, 100);
    for i in 0..10 {
        let ch = (b'a' + i) as char;
        output(&mut terminal, format!("{ch} line {i}\r\n").as_bytes());
    }
    let before = terminal.screen().cell(0, 0).map(|c| c.contents().to_string());
    terminal.screen_mut().set_scrollback(6);
    let after = terminal.screen().cell(0, 0).map(|c| c.contents().to_string());
    assert_ne!(
        before, after,
        "scrollback should change cell(0,0) content"
    );
    assert_eq!(after, Some("a".into()));
    terminal.screen_mut().set_scrollback(0);
    let reset = terminal.screen().cell(0, 0).map(|c| c.contents().to_string());
    assert_eq!(reset, before, "scrollback=0 should restore original view");
}

#[test]
fn scroll_up_populates_scrollback() {
    let mut terminal = Emulator::new(3, 40, 100);
    assert_eq!(terminal.screen().scrollback(), 0);
    for i in 0..6 {
        output(&mut terminal, format!("row {}\r\n", i).as_bytes());
    }
    // 6 lines into a 3-row terminal = 3 lines should be in scrollback
    terminal.screen_mut().set_scrollback(3);
    let cell = terminal.screen().cell(0, 0).map(|c| c.contents());
    assert_eq!(cell, Some("r".into()), "should show 'row 0' from scrollback");
}

#[test]
fn background_color_is_preserved_through_el_and_text() {
    // A program clears a line with a background color, then writes text
    let mut terminal = Emulator::new(5, 40, 0);

    output(&mut terminal, b"\x1b[48;5;236m\x1b[2K");
    let cell = terminal.screen().cell(0, 0).unwrap();
    assert_eq!(
        cell.bgcolor(),
        vt100::Color::Idx(236),
        "Cell after EL 2 with bg set should have background color"
    );
    assert!(!cell.has_contents(), "Cleared cell should have no content");

    output(&mut terminal, b"\x1b[mhello");
    let cell = terminal.screen().cell(0, 0).unwrap();
    assert_eq!(cell.contents(), "h");
    assert_eq!(cell.bgcolor(), vt100::Color::Default);
}

#[test]
fn background_color_is_preserved_through_sgr_and_text() {
    let mut terminal = Emulator::new(5, 40, 0);

    output(&mut terminal, b"\x1b[44mcolored text");
    let cell = terminal.screen().cell(0, 0).unwrap();
    assert_eq!(cell.contents(), "c");
    assert_eq!(
        cell.bgcolor(),
        vt100::Color::Idx(4),
        "Text with blue bg should have bg = Idx(4)"
    );
}

#[test]
fn ed2_clears_screen_with_current_background() {
    let mut terminal = Emulator::new(5, 40, 0);

    output(&mut terminal, b"some text");
    output(&mut terminal, b"\x1b[43m\x1b[2J");

    for row in 0..5 {
        let cell = terminal.screen().cell(row, 0).unwrap();
        assert_eq!(
            cell.bgcolor(),
            vt100::Color::Idx(3),
            "Row {row} should have yellow bg after ED 2"
        );
    }
}

#[test]
fn terminal_view_renders_background_colors() {
    let mut terminal = Emulator::new(3, 10, 0);
    output(&mut terminal, b"\x1b[41m\x1b[2Khello");

    let cells = terminal_view(terminal.screen(), Rect::new(0, 0, 10, 3));
    let cell0 = cells
        .iter()
        .find(|cell| cell.x == 0 && cell.y == 0)
        .expect("the first cell is drawn");
    assert_eq!(
        cell0.style.bg,
        Some(Color::Indexed(1)),
        "Cell 'h' should have red background"
    );
    assert_eq!(cell0.symbol, "h");
}

#[test]
fn special_keys_have_their_sequences() {
    assert_eq!(key(KeyCode::Enter), Some(b"\r".to_vec()));
    assert_eq!(key(KeyCode::Tab), Some(b"\t".to_vec()));
    assert_eq!(key(KeyCode::BackTab), Some(b"\x1b[Z".to_vec()));
    assert_eq!(key(KeyCode::Backspace), Some(vec![0x7f]));
    assert_eq!(key(KeyCode::Esc), Some(vec![0x1b]));
    assert_eq!(key(KeyCode::Up), Some(b"\x1b[A".to_vec()));
    assert_eq!(key(KeyCode::Down), Some(b"\x1b[B".to_vec()));
    assert_eq!(key(KeyCode::Right), Some(b"\x1b[C".to_vec()));
    assert_eq!(key(KeyCode::Left), Some(b"\x1b[D".to_vec()));
    assert_eq!(key(KeyCode::Char('é')), Some("é".as_bytes().to_vec()));
    assert_eq!(key(KeyCode::Other), None);
    let alt = KeyEvent::new(KeyCode::Char('x'), KeyModifiers::alt());
    assert_eq!(encode_key(alt), Some(b"\x1bx".to_vec()));
}

#[test]
fn wheel_coordinates_are_cut_in_the_old_encodings() {
    assert_eq!(
        encode_mouse_wheel(MouseProtocolEncoding::Default, false, 500, 1),
        vec![0x1b, b'[', b'M', 97, 255, 34]
    );
    assert_eq!(
        wheel_report(MouseProtocolMode::Off, MouseProtocolEncoding::Sgr, true, 0, 0),
        None
    );
    assert_eq!(
        wheel_report(MouseProtocolMode::Press, MouseProtocolEncoding::Sgr, true, 0, 0),
        Some(b"\x1b[<64;1;1M".to_vec())
    );
}

#[test]
fn the_wheel_is_reported_to_programs_that_ask_for_it() {
    let mut terminal = Emulator::new(5, 20, 10);
    assert_eq!(wheel_input(terminal.screen(), true, 1, 1), None);
    output(&mut terminal, b"\x1b[?1000h\x1b[?1006h");
    assert_eq!(
        wheel_input(terminal.screen(), false, 1, 2),
        Some(b"\x1b[<65;2;3M".to_vec())
    );
    output(&mut terminal, b"\x1b[?1006l");
    assert_eq!(
        wheel_input(terminal.screen(), true, 0, 0),
        Some(vec![0x1b, b'[', b'M', 96, 33, 33])
    );
    output(&mut terminal, b"\x1b[?1005h");
    assert_eq!(
        wheel_input(terminal.screen(), true, 0, 0),
        Some(encode_mouse_wheel(MouseProtocolEncoding::Utf8, true, 0, 0))
    );
    for (sequence, wanted) in [
        ("\x1b[?1000l\x1b[?9h", true),
        ("\x1b[?9l\x1b[?1002h", true),
        ("\x1b[?1002l\x1b[?1003h", true),
        ("\x1b[?1003l", false),
    ] {
        output(&mut terminal, sequence.as_bytes());
        assert_eq!(wheel_input(terminal.screen(), true, 0, 0).is_some(), wanted);
    }
}

#[test]
fn scrolling_stays_within_the_history() {
    let mut terminal = Emulator::new(3, 20, 100);
    for i in 0..6 {
        output(&mut terminal, format!("row {i}\r\n").as_bytes());
    }
    scroll_viewport(terminal.screen_mut(), 3);
    assert_eq!(terminal.screen().scrollback(), 3);
    scroll_viewport(terminal.screen_mut(), 3);
    assert_eq!(terminal.screen().scrollback(), 4);
    scroll_viewport(terminal.screen_mut(), -3);
    assert_eq!(terminal.screen().scrollback(), 1);
    scroll_viewport(terminal.screen_mut(), -3);
    assert_eq!(terminal.screen().scrollback(), 0);
    assert_eq!(scroll_target(usize::MAX, 3), usize::MAX);
    assert_eq!(scroll_target(2, -3), 0);
    assert_eq!(scroll_target(2, 3), 5);
}

#[test]
fn screens_take_the_size_of_their_pane() {
    let mut terminal = Emulator::new(3, 20, 10);
    assert!(resize_screen(terminal.screen_mut(), Rect::new(5, 5, 33, 7)));
    assert_eq!(terminal.screen().size(), (7, 33));
    assert!(!resize_screen(terminal.screen_mut(), Rect::new(5, 5, 0, 7)));
    assert!(!resize_screen(terminal.screen_mut(), Rect::new(5, 5, 33, 0)));
    assert_eq!(terminal.screen().size(), (7, 33));
}

#[test]
fn the_cursor_is_shown_in_its_pane_only() {
    let mut terminal = Emulator::new(5, 20, 10);
    output(&mut terminal, b"ab\r\ncd");
    assert_eq!(
        pane_cursor(terminal.screen(), Rect::new(10, 3, 20, 5)),
        Some((12, 4))
    );
    assert_eq!(pane_cursor(terminal.screen(), Rect::new(10, 3, 2, 5)), None);
    assert_eq!(pane_cursor(terminal.screen(), Rect::new(10, 3, 20, 1)), None);
    output(&mut terminal, b"\x1b[?25l");
    assert_eq!(pane_cursor(terminal.screen(), Rect::new(10, 3, 20, 5)), None);
}

#[test]
fn a_screen_is_drawn_inside_its_area() {
    let mut terminal = Emulator::new(2, 4, 0);
    output(&mut terminal, b"ab");
    let cells = terminal_view(terminal.screen(), Rect::new(7, 9, 3, 5));
    assert_eq!(cells.len(), 6);
    assert_eq!((cells[0].x, cells[0].y), (7, 9));
    assert_eq!(cells[0].symbol, "a");
    assert_eq!(cells[1].symbol, "b");
    assert_eq!(cells[2].symbol, " ");
    assert!(cells.iter().all(|cell| cell.x < 10 && cell.y < 11));
}

#[test]
fn cells_are_drawn_with_their_attributes() {
    let mut terminal = Emulator::new(2, 10, 0);
    output(&mut terminal, b"\x1b[1;3;4;7;38;2;1;2;3mx");
    let cells = terminal_view(terminal.screen(), Rect::new(0, 0, 10, 2));
    let style = cells[0].style;
    assert_eq!(style.fg, Some(Color::Rgb(1, 2, 3)));
    assert_eq!(style.bg, Some(Color::Reset));
    assert!(style.bold && style.italic && style.underlined && style.reversed);
    assert!(!style.dim);
    assert_eq!(vt_color(VtColor::Default), Color::Reset);
    assert_eq!(vt_color(VtColor::Idx(7)), Color::Indexed(7));
    let cell = ScreenCell {
        contents: String::new(),
        fg: VtColor::Default,
        bg: VtColor::Idx(2),
        bold: false,
        dim: true,
        italic: false,
        underline: false,
        inverse: false,
    };
    let drawn = draw_cell(&cell, 3, 4);
    assert_eq!(drawn.symbol, " ");
    assert_eq!(drawn.style.bg, Some(Color::Indexed(2)));
    assert!(drawn.style.dim);
}

#[test]
fn directories_are_reported_by_either_sequence() {
    assert_eq!(
        osc7_directory("\u{9d}7;file://host/a%20b\x07"),
        Some("/a b".to_string())
    );
    assert_eq!(
        osc7_directory("\x1b]7;file:///first\x07 text \x1b]7;file:///second\x1b\\"),
        Some("/second".to_string())
    );
    assert_eq!(osc7_directory("nothing here"), None);
    let mut cwd = b"/old".to_vec();
    update_cwd_from_osc7(b"no report", &mut cwd);
    assert_eq!(cwd, b"/old");
    update_cwd_from_osc7(b"\xff\xfe\x1b]7;file://h/new\x07\xff", &mut cwd);
    assert_eq!(cwd, b"/new");
}

#[test]
fn terminal_programs_have_display_names() {
    assert_eq!(terminal_display_name("iTerm.app"), "iTerm.app");
    assert_eq!(terminal_display_name("GHOSTTY"), "Ghostty");
    assert_eq!(terminal_display_name("Apple_Terminal"), "Terminal");
    assert_eq!(terminal_display_name("unknown"), "unknown");
    assert_eq!(
        host_terminal_name(None, None),
        "terminal"
    );
    assert_eq!(
        host_terminal_name(None, Some("kitty".to_string())),
        "kitty"
    );
    assert_eq!(
        host_terminal_name(Some("Ghostty".to_string()), Some("kitty".to_string())),
        "Ghostty"
    );
}

#[test]
fn the_process_tree_is_searched_upwards() {
    assert_eq!(parent_process("Name:\tx\nPPid:\t17\n"), Some(17));
    assert_eq!(parent_process("Name:\tx\n"), None);
    assert!(terminal_of_process("alacritty\n").is_some());
    assert_eq!(terminal_of_process("bash"), None);
    let status = |pid: u32| match pid {
        30 => Some("PPid:\t20\n".to_string()),
        20 => Some("PPid:\t10\n".to_string()),
        10 => Some("PPid:\t1\n".to_string()),
        _ => None,
    };
    let command = |pid: u32| match pid {
        20 => Some("zsh\n".to_string()),
        10 => Some("alacritty\n".to_string()),
        _ => None,
    };
    assert_eq!(
        detect_terminal_from_process_tree(30, status, command),
        terminal_of_process("alacritty")
    );
    assert_eq!(
        detect_terminal_from_process_tree(99, status, command),
        None
    );
}

#[test]
fn the_workspace_file_lies_below_the_state_directory() {
    assert_eq!(
        workspace_state_path(Some(b"/state"), Some(b"/home/u")),
        Some(b"/state/plexr/workspace.json".to_vec())
    );
    assert_eq!(
        workspace_state_path(None, Some(b"/home/u/")),
        Some(b"/home/u/.local/state/plexr/workspace.json".to_vec())
    );
    assert_eq!(
        workspace_state_path(Some(b""), None),
        Some(b"plexr/workspace.json".to_vec())
    );
    assert_eq!(workspace_state_path(None, None), None);
}

#[test]
fn a_wheel_step_is_reported_and_scrolls_three_rows() {
    let mut terminal = Emulator::new(3, 20, 100);
    for i in 0..9 {
        output(&mut terminal, format!("row {i}\r\n").as_bytes());
    }
    assert_eq!(turn_wheel(terminal.screen_mut(), true, 1, 2), None);
    assert_eq!(terminal.screen().scrollback(), 3);
    output(&mut terminal, b"\x1b[?1000h\x1b[?1006h");
    assert_eq!(
        turn_wheel(terminal.screen_mut(), true, 1, 2),
        Some(b"\x1b[<64;2;3M".to_vec())
    );
    assert_eq!(terminal.screen().scrollback(), 6);
    assert_eq!(
        turn_wheel(terminal.screen_mut(), false, 0, 0),
        Some(b"\x1b[<65;1;1M".to_vec())
    );
    assert_eq!(terminal.screen().scrollback(), 3);
}

#[test]
fn resized_screens_keep_the_cells_inside() {
    let mut terminal = Emulator::new(3, 6, 10);
    output(&mut terminal, b"\x1b[41mabcdef\r\nghijkl\x1b[3;6H");
    assert!(resize_screen(terminal.screen_mut(), Rect::new(0, 0, 8, 4)));
    let cells = terminal_view(terminal.screen(), Rect::new(0, 0, 8, 4));
    assert_eq!(cells.len(), 32);
    assert_eq!(cells[5].symbol, "f");
    assert_eq!(cells[5].style.bg, Some(Color::Indexed(1)));
    assert_eq!(cells[6].symbol, " ");
    assert_eq!(cells[6].style.bg, Some(Color::Reset));
    assert_eq!(cells[31].style.bg, Some(Color::Reset));
    assert!(resize_screen(terminal.screen_mut(), Rect::new(0, 0, 2, 1)));
    assert_eq!(terminal.screen().cursor_position(), (0, 1));
    let cells = terminal_view(terminal.screen(), Rect::new(0, 0, 8, 4));
    assert_eq!(cells.len(), 2);
    assert_eq!(cells[1].symbol, "b");
    assert_eq!(pane_size(Rect::new(9, 9, 2, 1)), Some((1, 2)));
    assert_eq!(pane_size(Rect::new(9, 9, 0, 1)), None);
    assert_eq!(pane_size(Rect::new(9, 9, 2, 0)), None);
}

#[test]
fn resized_screens_keep_the_rows_that_were_scrolled_out() {
    let mut terminal = Emulator::new(3, 6, 10);
    output(&mut terminal, b"row0\r\nrow1\r\nrow2\r\nrow3\r\nrow4");
    scroll_viewport(terminal.screen_mut(), 1);
    assert!(resize_screen(terminal.screen_mut(), Rect::new(0, 0, 8, 4)));
    // The row above was scrolled out and is as long as it was; the others are filled up.
    assert_eq!(row_text(&terminal, 0, 8), "row1  ");
    assert_eq!(row_text(&terminal, 1, 8), "row2    ");
    assert_eq!(row_text(&terminal, 2, 8), "row3    ");
    assert_eq!(row_text(&terminal, 3, 8), "row4    ");
    assert!(resize_screen(terminal.screen_mut(), Rect::new(0, 0, 3, 2)));
    assert_eq!(row_text(&terminal, 0, 3), "row");
    assert_eq!(row_text(&terminal, 0, 8), "row");
    assert_eq!(row_text(&terminal, 1, 8), "row");
    scroll_viewport(terminal.screen_mut(), 1);
    assert!(resize_screen(terminal.screen_mut(), Rect::new(0, 0, 8, 2)));
    assert_eq!(row_text(&terminal, 0, 8), "row0  ");
    assert_eq!(row_text(&terminal, 1, 8), "row1  ");
    scroll_viewport(terminal.screen_mut(), -2);
    assert_eq!(row_text(&terminal, 0, 8), "row     ");
    assert_eq!(row_text(&terminal, 1, 8), "row     ");
}

#[test]
fn output_reaches_the_screen_and_the_directory() {
    let mut terminal = Emulator::for_shell(4, 20);
    let mut cwd = b"/old".to_vec();
    assert_eq!(terminal.screen().size(), (4, 20));
    assert_eq!(row_text(&terminal, 0, 20), " ".repeat(20));
    take_output(&mut terminal, &mut cwd, b"ls\r\n");
    assert_eq!(cwd, b"/old");
    take_output(&mut terminal, &mut cwd, b"a\x1b]7;file://host/new%20place\x07b");
    assert_eq!(cwd, b"/new place");
    assert_eq!(row_text(&terminal, 0, 3), "ls ");
    assert_eq!(row_text(&terminal, 1, 3), "ab ");
    assert_eq!(pane_cursor(terminal.screen(), Rect::new(0, 0, 20, 4)), Some((2, 1)));
    assert_eq!(terminal.screen().size(), (4, 20));
}

#[test]
fn a_character_may_arrive_in_two_parts() {
    let mut terminal = Emulator::for_shell(2, 5);
    output(&mut terminal, b"a\xc3");
    output(&mut terminal, b"\xa9b");
    assert_eq!(row_text(&terminal, 0, 5), "aéb  ");
}

#[test]
fn a_blank_screen_has_nothing_on_it() {
    let terminal = Emulator::new(2, 3, 5);
    let cells = terminal_view(terminal.screen(), Rect::new(0, 0, 9, 9));
    assert_eq!(cells.len(), 6);
    assert!(cells.iter().all(|cell| cell.symbol == " "
        && cell.style.fg == Some(Color::Reset)
        && cell.style.bg == Some(Color::Reset)));
    assert_eq!(pane_cursor(terminal.screen(), Rect::new(0, 0, 3, 2)), Some((0, 0)));
    assert_eq!(wheel_input(terminal.screen(), true, 0, 0), None);
    assert_eq!(terminal.screen().scrollback(), 0);
}

#[test]
fn rows_are_kept_up_to_a_limit() {
    let mut terminal = Emulator::new(2, 8, 3);
    for i in 0..9 {
        output(&mut terminal, format!("row {i}\r\n").as_bytes());
    }
    scroll_viewport(terminal.screen_mut(), 100);
    assert_eq!(terminal.screen().scrollback(), 3);
    assert_eq!(row_text(&terminal, 0, 5), "row 5");
    let mut terminal = Emulator::for_shell(2, 8);
    for _ in 0..SCROLLBACK_ROWS + 50 {
        output(&mut terminal, b"x\r\n");
    }
    scroll_viewport(terminal.screen_mut(), isize::MAX);
    assert_eq!(SCROLLBACK_ROWS, 10_000);
    assert_eq!(terminal.screen().scrollback(), 10_000);
}

#[test]
fn a_roomy_screen_takes_the_widest_characters() {
    let mut terminal = Emulator::new(2, 3, 0);
    for text in ["\u{17d8}", "\u{17d8}", "界界界", "\t\t\x1b[4@", "\x1b[9P\x1b[K", "\u{301}"] {
        output(&mut terminal, text.as_bytes());
    }
    assert!(resize_screen(terminal.screen_mut(), Rect::new(0, 0, 7, 2)));
    for text in ["\x1b[2J\x1b[H", "\u{17d8}界", "\x1b[1;2H\x1b[3@", "\x1bM\x1b[5L\x1b[5M", "x"] {
        output(&mut terminal, text.as_bytes());
    }
    assert_eq!(terminal.screen().size(), (2, 7));
}

#[test]
fn repeated_work_is_due_after_its_interval() {
    assert!(!is_due(15_999_999, 0, DRAW_INTERVAL));
    assert!(is_due(16_000_000, 0, DRAW_INTERVAL));
    assert!(!is_due(500_000_006, 7, SAVE_INTERVAL));
    assert!(is_due(500_000_007, 7, SAVE_INTERVAL));
    assert!(!is_due(3, 7, 1));
    assert!(is_due(3, 7, 0));
}
