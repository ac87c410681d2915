//! What keys and pasted text do.

use crate::app;
use crate::app::{Action, ActionView, App, AppView, InputMode, InputModeView};
use crate::events::{KeyCode, KeyEvent, KeyEventKind};
use crate::groups;
use crate::session;
use crate::session::{session_position, SessionView};
use crate::tabs;
use crate::terminal;
use crate::terminal::encode_key;
use crate::text;
use crate::text::{chars_of, replace, split_at_each, string_of, trim};
use vstd::prelude::*;

verus! {

/// How long the prefix key waits for the next key, in nanoseconds.
pub const PREFIX_TIMEOUT: u64 = 1_000_000_000;

/// The prefix key was pressed, no longer ago than it waits.
pub open spec fn prefix_live(app: AppView, now: u64) -> bool {
    app.prefix_started matches Some(started) && now - started <= PREFIX_TIMEOUT
}

/// The workspace with the sidebar collapsed or expanded by the user.
pub open spec fn toggled(app: AppView) -> AppView {
    app::refitted(AppView { manual_collapse: !app.sidebar_collapsed, ..app })
}

/// What is left to be done after a change of the selected unit.
pub open spec fn resize_if(changed: bool) -> ActionView {
    if changed { ActionView::Resize } else { ActionView::Idle }
}

/// The workspace after a unit of the top level was selected, and what is left to be done.
pub open spec fn selecting(app: AppView, position: int) -> (AppView, ActionView) {
    (
        tabs::selected(app, position),
        resize_if(0 <= position < tabs::units(app.sessions).len()),
    )
}

/// The workspace after the next unit was selected, and what is left to be done.
pub open spec fn cycling(app: AppView, delta: int) -> (AppView, ActionView) {
    (tabs::cycled(app, delta), resize_if(tabs::units(app.sessions).len() > 0))
}

/// The workspace after a key that follows the prefix key, and what is left to be done.
pub open spec fn prefixed(app: AppView, key: KeyEvent, now: u64) -> (AppView, ActionView) {
    match key.code {
        KeyCode::Char(c) => if '1' <= c <= '9' {
            selecting(app, c as int - '1' as int)
        } else if c == '0' {
            selecting(app, 9)
        } else if c == 'h' {
            (tabs::focused(app, KeyCode::Left), ActionView::Idle)
        } else if c == 'j' {
            (tabs::focused(app, KeyCode::Down), ActionView::Idle)
        } else if c == 'k' {
            (tabs::focused(app, KeyCode::Up), ActionView::Idle)
        } else if c == 'l' {
            (tabs::focused(app, KeyCode::Right), ActionView::Idle)
        } else if c == 'T' || c == 't' {
            (app, ActionView::Spawn(app::new_session(app)))
        } else if c == 'W' || c == 'w' {
            (
                groups::close_requested(app, app.active as int, now),
                groups::close_request(app, app.active as int, now),
            )
        } else if c == 's' {
            (toggled(app), ActionView::Resize)
        } else if c == 'b' && key.modifiers.control {
            (app, app::written(app, seq![0x02u8]))
        } else {
            (app, ActionView::Idle)
        },
        KeyCode::Left => cycling(app, -1),
        KeyCode::Right => cycling(app, 1),
        _ => (app, ActionView::Idle),
    }
}

/// A text while it is edited, after a key that edits it.
pub open spec fn edited(value: Seq<char>, key: KeyEvent) -> Seq<char> {
    match key.code {
        KeyCode::Backspace => if value.len() > 0 { value.drop_last() } else { value },
        KeyCode::Char(c) => if key.modifiers.control { value } else { value.push(c) },
        _ => value,
    }
}

/// A name as it was typed, without white space around it. Nothing is no name.
pub open spec fn typed_name(value: Seq<char>) -> Option<Seq<char>> {
    let name = text::trimmed(value);
    if name.len() > 0 { Some(name) } else { None }
}

/// The workspace with the name of a session replaced.
pub open spec fn renamed(app: AppView, session_id: u64, name: Option<Seq<char>>) -> AppView {
    match session::position_of(app.sessions, session_id) {
        Some(index) => AppView {
            sessions: app.sessions.update(
                index,
                SessionView { custom_name: name, ..app.sessions[index] },
            ),
            ..app
        },
        None => app,
    }
}

/// The workspace with the name of a pane group replaced.
pub open spec fn group_renamed(app: AppView, group: u64, name: Option<Seq<char>>) -> AppView {
    AppView {
        group_names: match name {
            Some(name) => app.group_names.insert(group, name),
            None => app.group_names.remove(group),
        },
        ..app
    }
}

/// The workspace with the keyboard back at the terminal.
pub open spec fn back_to_normal(app: AppView) -> AppView {
    AppView { input_mode: InputModeView::Normal, ..app }
}

/// The workspace after a key while the name of a session is edited.
pub open spec fn rename_keyed(
    app: AppView,
    session_id: u64,
    value: Seq<char>,
    key: KeyEvent,
) -> AppView {
    match key.code {
        KeyCode::Esc => back_to_normal(app),
        KeyCode::Enter => back_to_normal(renamed(app, session_id, typed_name(value))),
        _ => AppView {
            input_mode: InputModeView::Rename { session_id, value: edited(value, key) },
            ..app
        },
    }
}

/// The workspace after a key while the name of a pane group is edited.
pub open spec fn group_rename_keyed(
    app: AppView,
    group_id: u64,
    value: Seq<char>,
    key: KeyEvent,
) -> AppView {
    match key.code {
        KeyCode::Esc => back_to_normal(app),
        KeyCode::Enter => back_to_normal(group_renamed(app, group_id, typed_name(value))),
        _ => AppView {
            input_mode: InputModeView::RenameGroup { group_id, value: edited(value, key) },
            ..app
        },
    }
}

/// The workspace after the close of a session was confirmed, and what is left to be done.
pub open spec fn close_confirmed(app: AppView, session_id: u64) -> (AppView, ActionView) {
    match session::position_of(app.sessions, session_id) {
        Some(index) => (
            back_to_normal(groups::closed(app, index)),
            groups::closing(app, index),
        ),
        None => (back_to_normal(app), ActionView::Idle),
    }
}

/// The workspace after a key while the close of a session is to be confirmed.
pub open spec fn confirm_keyed(app: AppView, session_id: u64, key: KeyEvent) -> (
    AppView,
    ActionView,
) {
    if key.code == KeyCode::Char('y') || key.code == KeyCode::Char('Y') || key.code
        == KeyCode::Enter {
        close_confirmed(app, session_id)
    } else if key.code == KeyCode::Char('n') || key.code == KeyCode::Char('N') || key.code
        == KeyCode::Esc {
        (back_to_normal(app), ActionView::Idle)
    } else {
        (app, ActionView::Idle)
    }
}

/// The session after a command was sent to it. While another command runs, that one stays the last
/// command.
pub open spec fn command_sent(session: SessionView, command: Seq<char>, now: u64) -> SessionView {
    SessionView {
        last_command: if session::is_running(session, now) {
            session.last_command
        } else {
            Some(command)
        },
        pending: true,
        ..session
    }
}

/// The session after a key was sent to its terminal.
pub open spec fn typed(session: SessionView, key: KeyEvent, now: u64) -> SessionView {
    match key.code {
        KeyCode::Enter => {
            let command = text::trimmed(session.input_line);
            let sent = if command.len() > 0 {
                command_sent(session, command, now)
            } else {
                session
            };
            SessionView { input_line: Seq::empty(), ..sent }
        },
        _ => SessionView { input_line: edited(session.input_line, key), ..session },
    }
}

/// The workspace after a key was sent to the active session.
pub open spec fn typed_in(app: AppView, key: KeyEvent, now: u64) -> AppView {
    if app.active < app.sessions.len() {
        AppView {
            sessions: app.sessions.update(
                app.active as int,
                typed(app.sessions[app.active as int], key, now),
            ),
            ..app
        }
    } else {
        app
    }
}

/// The workspace after a key that goes to the terminal, and what is left to be done.
pub open spec fn terminal_keyed(app: AppView, key: KeyEvent, now: u64) -> (AppView, ActionView) {
    let after = typed_in(app, key, now);
    match terminal::key_bytes(key) {
        Some(bytes) => (after, app::written(after, bytes)),
        None => (after, ActionView::Idle),
    }
}

/// The workspace after the prefix key: the sidebar is collapsed or expanded, and the next key can
/// be one that follows the prefix key.
pub open spec fn prefix_pressed(app: AppView, now: u64) -> AppView {
    AppView { prefix_started: Some(now), ..toggled(app) }
}

/// The workspace after a key while the keyboard is used for the terminal, and what is left to be
/// done.
pub open spec fn normal_keyed(app: AppView, key: KeyEvent, now: u64) -> (AppView, ActionView) {
    if app.prefix_started is Some {
        prefixed(AppView { prefix_started: None, ..app }, key, now)
    } else if key.modifiers.control && key.code == KeyCode::Char('b') {
        (prefix_pressed(app, now), ActionView::Resize)
    } else if key.modifiers.control && key.code == KeyCode::Char('q') {
        (app, ActionView::Quit)
    } else if key.modifiers.control && key.code == KeyCode::Char('t') {
        (app, ActionView::Spawn(app::new_session(app)))
    } else {
        terminal_keyed(app, key, now)
    }
}

/// The workspace after the wait of the prefix key, if that is over.
pub open spec fn prefix_expired(app: AppView, now: u64) -> AppView {
    if prefix_live(app, now) {
        app
    } else {
        AppView { prefix_started: None, ..app }
    }
}

/// The workspace after a key event, and what is left to be done. Only presses count.
pub open spec fn keyed(app: AppView, key: KeyEvent, now: u64) -> (AppView, ActionView) {
    if key.kind != KeyEventKind::Press {
        (app, ActionView::Idle)
    } else {
        let current = prefix_expired(app, now);
        match app.input_mode {
            InputModeView::Normal => normal_keyed(current, key, now),
            InputModeView::Rename { session_id, value } => (
                rename_keyed(current, session_id, value, key),
                ActionView::Idle,
            ),
            InputModeView::RenameGroup { group_id, value } => (
                group_rename_keyed(current, group_id, value, key),
                ActionView::Idle,
            ),
            InputModeView::ConfirmClose { session_id } => confirm_keyed(current, session_id, key),
        }
    }
}

/// The key goes to the terminal.
pub open spec fn goes_to_terminal(app: AppView, key: KeyEvent, now: u64) -> bool {
    key.kind == KeyEventKind::Press && app.input_mode is Normal && !prefix_live(app, now)
}

/// A text with every line end as a line feed.
pub open spec fn normalized(s: Seq<char>) -> Seq<char> {
    text::replaced(text::replaced(s, seq!['\r', '\n'], seq!['\n']), seq!['\r'], seq!['\n'])
}

/// The last of the first `count` lines that is not blank.
pub open spec fn last_line(lines: Seq<Seq<char>>, count: int) -> Option<Seq<char>>
    decreases count,
{
    if count <= 0 {
        None
    } else if text::trimmed(lines[count - 1]).len() > 0 {
        Some(lines[count - 1])
    } else {
        last_line(lines, count - 1)
    }
}

/// The session after a text was pasted into it whose line ends are line feeds. If it holds any,
/// its last line that is not blank counts as a command, and what follows the last line end is the
/// new input line.
pub open spec fn pasted(session: SessionView, plain: Seq<char>, now: u64) -> SessionView {
    let lines = text::split(plain, '\n');
    if plain.contains('\n') {
        let sent = match last_line(lines, lines.len() as int) {
            Some(line) => command_sent(session, text::trimmed(line), now),
            None => session,
        };
        SessionView { input_line: lines.last(), ..sent }
    } else {
        SessionView { input_line: session.input_line + plain, ..session }
    }
}

/// The workspace after a text was pasted into the active session.
pub open spec fn pasted_in(app: AppView, s: Seq<char>, now: u64) -> AppView {
    if app.active < app.sessions.len() {
        AppView {
            sessions: app.sessions.update(
                app.active as int,
                pasted(app.sessions[app.active as int], normalized(s), now),
            ),
            ..app
        }
    } else {
        app
    }
}

/// What is left to be done after a text was pasted: it goes to the active session as it is.
pub open spec fn pasting(app: AppView, s: Seq<char>) -> ActionView {
    app::written(app, vstd::utf8::encode_utf8(s))
}

fn edit(value: &mut String, key: KeyEvent)
    ensures
        final(value)@ == edited(old(value)@, key),
{
    match key.code {
        KeyCode::Backspace => {
            value.pop();
        },
        KeyCode::Char(c) => {
            if !key.modifiers.control {
                value.push(c);
            }
        },
        _ => {},
    }
}

fn name_typed(value: &String) -> (r: Option<String>)
    ensures
        session::text_of(r) == typed_name(value@),
{
    let name = trim(value.as_str());
    if name.as_str().is_empty() {
        None
    } else {
        Some(name)
    }
}

fn resize_action(changed: bool) -> (r: Action)
    ensures
        r@ == resize_if(changed),
{
    if changed {
        Action::Resize
    } else {
        Action::Idle
    }
}

impl session::Session {
    /// Notes that a command was sent to the session.
    fn send_command(&mut self, command: String, now: u64)
        ensures
            final(self)@ == command_sent(old(self)@, command@, now),
    {
        if !self.is_pending(now) {
            self.last_command = Some(command);
        }
        self.pending = true;
    }

    fn type_key(&mut self, key: KeyEvent, now: u64)
        ensures
            final(self)@ == typed(old(self)@, key, now),
    {
        match key.code {
            KeyCode::Enter => {
                let command = trim(self.input_line.as_str());
                if !command.as_str().is_empty() {
                    self.send_command(command, now);
                }
                self.input_line = String::new();
            },
            _ => edit(&mut self.input_line, key),
        }
    }

    fn paste(&mut self, plain: &Vec<char>, now: u64)
        ensures
            final(self)@ == pasted(old(self)@, plain@, now),
    {
        let ghost before = self@;
        let mut has_line_end = false;
        for i in 0..plain.len()
            invariant
                has_line_end == plain@.take(i as int).contains('\n'),
        {
            proof {
                let part = plain@.take(i as int);
                let more = plain@.take(i + 1);
                assert(more =~= part.push(plain@[i as int]));
                if part.contains('\n') {
                    let j = choose|j: int| 0 <= j < part.len() && part[j] == '\n';
                    assert(more[j] == '\n');
                }
                if plain@[i as int] == '\n' {
                    assert(more[i as int] == '\n');
                }
                if more.contains('\n') && plain@[i as int] != '\n' {
                    let j = choose|j: int| 0 <= j < more.len() && more[j] == '\n';
                    assert(part[j] == '\n');
                }
            }
            if plain[i] == '\n' {
                has_line_end = true;
            }
        }
        assert(plain@.take(plain@.len() as int) =~= plain@);
        if !has_line_end {
            let rest = string_of(plain, 0, plain.len());
            assert(rest@ =~= plain@);
            self.input_line.append(rest.as_str());
            return ;
        }
        let lines = split_at_each(plain, '\n');
        let ghost texts = text::texts(lines@);
        let mut count: usize = lines.len();
        let mut command: Option<String> = None;
        while count > 0 && command.is_none()
            invariant
                count <= lines@.len(),
                texts == text::texts(lines@),
                match command {
                    Some(command) => match last_line(texts, texts.len() as int) {
                        Some(line) => command@ == text::trimmed(line),
                        None => false,
                    },
                    None => last_line(texts, texts.len() as int) == last_line(texts, count as int),
                },
            decreases count,
        {
            assert(texts[count - 1] == lines@[count - 1]@);
            let line = trim(lines[count - 1].as_str());
            if !line.as_str().is_empty() {
                command = Some(line);
            }
            count -= 1;
        }
        if let Some(command) = command {
            self.send_command(command, now);
        }
        assert(texts.last() == lines@[lines@.len() - 1]@);
        self.input_line = lines[lines.len() - 1].clone();
    }
}

impl App {
    /// Collapses or expands the sidebar.
    pub(crate) fn toggle_sidebar(&mut self)
        ensures
            final(self)@ == toggled(old(self)@),
    {
        self.manual_collapse = !self.sidebar_collapsed;
        self.refit();
    }

    /// Handles a key that follows the prefix key.
    pub fn handle_prefix_key(&mut self, key: KeyEvent, now: u64) -> (r: Action)
        requires
            old(self)@.wf(),
        ensures
            (final(self)@, r@) == prefixed(old(self)@, key, now),
    {
        match key.code {
            KeyCode::Char(c) => {
                if '1' <= c && c <= '9' {
                    let position: usize = (c as u32 - '1' as u32) as usize;
                    let changed = self.select_top_level(position);
                    return resize_action(changed);
                }
                match c {
                    '0' => {
                        let changed = self.select_top_level(9);
                        resize_action(changed)
                    },
                    'h' => {
                        self.focus_pane(KeyCode::Left);
                        Action::Idle
                    },
                    'j' => {
                        self.focus_pane(KeyCode::Down);
                        Action::Idle
                    },
                    'k' => {
                        self.focus_pane(KeyCode::Up);
                        Action::Idle
                    },
                    'l' => {
                        self.focus_pane(KeyCode::Right);
                        Action::Idle
                    },
                    'T' | 't' => Action::Spawn(self.spawn_request()),
                    'W' | 'w' => {
                        let active = self.active;
                        self.request_close(active, now)
                    },
                    's' => {
                        self.toggle_sidebar();
                        Action::Resize
                    },
                    'b' => {
                        if key.modifiers.control {
                            let bytes: Vec<u8> = vec![0x02];
                            assert(bytes@ == seq![0x02u8]);
                            self.write_active(bytes)
                        } else {
                            Action::Idle
                        }
                    },
                    _ => Action::Idle,
                }
            },
            KeyCode::Left => {
                let changed = self.cycle_top_level(-1);
                resize_action(changed)
            },
            KeyCode::Right => {
                let changed = self.cycle_top_level(1);
                resize_action(changed)
            },
            _ => Action::Idle,
        }
    }

    pub(crate) fn confirm_close(&mut self, session_id: u64) -> (r: Action)
        ensures
            (final(self)@, r@) == close_confirmed(old(self)@, session_id),
    {
        let action = match session_position(self.sessions.as_slice(), session_id) {
            Some(index) => self.close_session(index),
            None => Action::Idle,
        };
        self.input_mode = InputMode::Normal;
        action
    }

    fn confirm_key(&mut self, session_id: u64, key: KeyEvent) -> (r: Action)
        ensures
            (final(self)@, r@) == confirm_keyed(old(self)@, session_id, key),
    {
        match key.code {
            KeyCode::Char('y') | KeyCode::Char('Y') | KeyCode::Enter => {
                self.confirm_close(session_id)
            },
            KeyCode::Char('n') | KeyCode::Char('N') | KeyCode::Esc => {
                self.input_mode = InputMode::Normal;
                Action::Idle
            },
            _ => Action::Idle,
        }
    }

    fn rename_key(&mut self, session_id: u64, value: String, key: KeyEvent)
        ensures
            final(self)@ == rename_keyed(old(self)@, session_id, value@, key),
    {
        let ghost before = self@;
        match key.code {
            KeyCode::Esc => {
                self.input_mode = InputMode::Normal;
            },
            KeyCode::Enter => {
                let name = name_typed(&value);
                let ghost typed = session::text_of(name);
                if let Some(index) = session_position(self.sessions.as_slice(), session_id) {
                    self.sessions[index].custom_name = name;
                    assert(self@.sessions =~= renamed(before, session_id, typed).sessions);
                }
                self.input_mode = InputMode::Normal;
            },
            _ => {
                let mut value = value;
                edit(&mut value, key);
                self.input_mode = InputMode::Rename { session_id, value };
            },
        }
    }

    fn group_rename_key(&mut self, group_id: u64, value: String, key: KeyEvent)
        ensures
            final(self)@ == group_rename_keyed(old(self)@, group_id, value@, key),
    {
        let ghost before = self@;
        match key.code {
            KeyCode::Esc => {
                self.input_mode = InputMode::Normal;
            },
            KeyCode::Enter => {
                let ghost typed = typed_name(value@);
                match name_typed(&value) {
                    Some(name) => {
                        self.group_names.insert(group_id, name);
                    },
                    None => {
                        self.group_names.remove(&group_id);
                    },
                }
                assert(self@.group_names =~= group_renamed(before, group_id, typed).group_names);
                self.input_mode = InputMode::Normal;
            },
            _ => {
                let mut value = value;
                edit(&mut value, key);
                self.input_mode = InputMode::RenameGroup { group_id, value };
            },
        }
    }

    fn terminal_key(&mut self, key: KeyEvent, now: u64) -> (r: Action)
        requires
            terminal::key_in_range(key),
        ensures
            (final(self)@, r@) == terminal_keyed(old(self)@, key, now),
    {
        let ghost before = self@;
        let active = self.active;
        if active < self.sessions.len() {
            self.sessions[active].type_key(key, now);
            assert(self@.sessions =~= typed_in(before, key, now).sessions);
        }
        match encode_key(key) {
            Some(bytes) => self.write_active(bytes),
            None => Action::Idle,
        }
    }

    /// Whether a key event can be handled: what goes to the terminal has to have a code.
    pub fn accepts_key(&self, key: KeyEvent, now: u64) -> (r: bool)
        ensures
            r == (goes_to_terminal(self@, key, now) ==> terminal::key_in_range(key)),
    {
        let high = match key.code {
            KeyCode::F(n) => n > 245,
            _ => false,
        };
        let normal = match &self.input_mode {
            InputMode::Normal => true,
            _ => false,
        };
        let waiting = match self.prefix_started {
            Some(started) => now <= started || now - started <= PREFIX_TIMEOUT,
            None => false,
        };
        !(high && normal && !waiting && key.kind == KeyEventKind::Press)
    }

    /// Handles a key event.
    pub fn handle_key(&mut self, key: KeyEvent, now: u64) -> (r: Action)
        requires
            old(self)@.wf(),
            goes_to_terminal(old(self)@, key, now) ==> terminal::key_in_range(key),
        ensures
            (final(self)@, r@) == keyed(old(self)@, key, now),
    {
        match key.kind {
            KeyEventKind::Press => {},
            _ => return Action::Idle,
        }
        if let Some(started) = self.prefix_started {
            if now > started && now - started > PREFIX_TIMEOUT {
                self.prefix_started = None;
            }
        }
        let ghost current = self@;
        assert(current == prefix_expired(old(self)@, now));
        let mut mode = InputMode::Normal;
        std::mem::swap(&mut mode, &mut self.input_mode);
        match mode {
            InputMode::Rename { session_id, value } => {
                self.rename_key(session_id, value, key);
                return Action::Idle;
            },
            InputMode::RenameGroup { group_id, value } => {
                self.group_rename_key(group_id, value, key);
                return Action::Idle;
            },
            InputMode::ConfirmClose { session_id } => {
                self.input_mode = InputMode::ConfirmClose { session_id };
                return self.confirm_key(session_id, key);
            },
            InputMode::Normal => {},
        }
        assert(self@ == current);
        if self.prefix_started.is_some() {
            self.prefix_started = None;
            return self.handle_prefix_key(key, now);
        }
        if key.modifiers.control {
            match key.code {
                KeyCode::Char('b') => {
                    self.toggle_sidebar();
                    self.prefix_started = Some(now);
                    return Action::Resize;
                },
                KeyCode::Char('q') => return Action::Quit,
                KeyCode::Char('t') => return Action::Spawn(self.spawn_request()),
                _ => {},
            }
        }
        self.terminal_key(key, now)
    }

    /// Handles a pasted text.
    pub fn handle_paste(&mut self, pasted_text: &str, now: u64) -> (r: Action)
        ensures
            final(self)@ == pasted_in(old(self)@, pasted_text@, now),
            r@ == pasting(old(self)@, pasted_text@),
    {
        let ghost before = self@;
        let active = self.active;
        if active < self.sessions.len() {
            let crlf: Vec<char> = vec!['\r', '\n'];
            let cr: Vec<char> = vec!['\r'];
            let lf: Vec<char> = vec!['\n'];
            assert(crlf@ == seq!['\r', '\n']);
            assert(cr@ == seq!['\r']);
            assert(lf@ == seq!['\n']);
            let raw = chars_of(pasted_text);
            let half = replace(&raw, &crlf, &lf);
            let plain = replace(&half, &cr, &lf);
            assert(plain@ == normalized(pasted_text@));
            self.sessions[active].paste(&plain, now);
            assert(self@.sessions =~= pasted_in(before, pasted_text@, now).sessions);
        }
        self.write_active(pasted_text.as_bytes_vec())
    }
}

} // verus!
