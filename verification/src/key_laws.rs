//! What single keys do.

use crate::app;
use crate::app::{ActionView, AppView, InputModeView, SpawnRequest};
use crate::events::{KeyCode, KeyEvent, KeyEventKind};
use crate::event_laws;
use crate::focus_laws;
use crate::groups;
use crate::input;
use crate::layout;
use crate::session;
use crate::session::SessionView;
use crate::terminal;
use crate::text;
use crate::text_laws;
use vstd::prelude::*;

verus! {

/// The place that is active after a tab was closed: the same one wherever a session is still there,
/// and the last one otherwise. So the active session stays the same if a tab behind it is closed,
/// and its successor takes over if it is closed itself.
pub proof fn closing_keeps_the_active_place(app: AppView, index: int)
    requires
        event_laws::is_sound(app),
        0 <= index < app.sessions.len(),
        app.sessions.len() > 1,
    ensures
        ({
            let after = groups::closed(app, index);
            let place = after.active as int;
            &&& after.sessions.len() == app.sessions.len() - 1
            &&& app.active < app.sessions.len() - 1 ==> place == app.active
            &&& app.active == app.sessions.len() - 1 ==> place == app.active - 1
            &&& index > app.active ==> after.sessions[place] == app.sessions[app.active as int]
            &&& index == app.active && index + 1 < app.sessions.len() ==> after.sessions[place]
                == app.sessions[index + 1]
            &&& groups::closing(app, index) == (ActionView::Close { index: index as usize })
        }),
{
}

/// Closing a tab takes its pane out of the layout of its group, and leaves every other layout and
/// the names of all groups that are still in use.
pub proof fn closing_takes_one_pane_away(app: AppView, index: int, group: u64)
    requires
        0 <= index < app.sessions.len(),
        app.sessions.len() > 1,
    ensures
        ({
            let after = groups::closed(app, index);
            let used = exists|i: int|
                0 <= i < app.sessions.len() && i != index && (#[trigger] app.sessions[i]).group
                    == Some(group);
            let own = app.sessions[index].group == Some(group);
            &&& used && app.group_names.contains_key(group) ==> after.group_names.contains_key(
                group,
            ) && after.group_names[group] == app.group_names[group]
            &&& used && !own && app.group_layouts.contains_key(group)
                ==> after.group_layouts.contains_key(group) && after.group_layouts[group]
                == app.group_layouts[group]
            &&& used && own && app.group_layouts.contains_key(group) ==> match layout::without(
                app.group_layouts[group],
                app.sessions[index].id,
            ) {
                Some(rest) => after.group_layouts.contains_key(group)
                    && after.group_layouts[group] == rest,
                None => !after.group_layouts.contains_key(group),
            }
            &&& !used ==> !after.group_names.contains_key(group)
                && !after.group_layouts.contains_key(group)
        }),
{
    let after = groups::closed(app, index);
    let rest = app.sessions.remove(index);
    if exists|i: int|
        0 <= i < app.sessions.len() && i != index && (#[trigger] app.sessions[i]).group == Some(
            group,
        ) {
        let i = choose|i: int|
            0 <= i < app.sessions.len() && i != index && (#[trigger] app.sessions[i]).group == Some(
                group,
            );
        assert(rest[if i < index { i } else { i - 1 }] == app.sessions[i]);
        assert(groups::in_use(rest, group));
    } else {
        if groups::in_use(rest, group) {
            let i = choose|i: int| 0 <= i < rest.len() && (#[trigger] rest[i]).group == Some(group);
            assert(rest[i] == app.sessions[if i < index { i } else { i + 1 }]);
        }
    }
}

/// A tab without a running command that is not the last one is closed at once when the user asks
/// for it: the session goes, the active place is kept wherever a session is still there, and its
/// terminal is dropped.
pub proof fn idle_tabs_are_closed_at_once(app: AppView, index: int, now: u64)
    requires
        event_laws::is_sound(app),
        0 <= index < app.sessions.len(),
        app.sessions.len() > 1,
        !session::is_running(app.sessions[index], now),
    ensures
        ({
            let after = groups::close_requested(app, index, now);
            &&& after.sessions == app.sessions.remove(index)
            &&& after.input_mode == app.input_mode
            &&& app.active < app.sessions.len() - 1 ==> after.active == app.active
            &&& app.active == app.sessions.len() - 1 ==> after.active == app.active - 1
            &&& groups::close_request(app, index, now) == (ActionView::Close {
                index: index as usize,
            })
        }),
{
    event_laws::running_commands_are_not_closed_unasked(app, index, now);
}

/// A tab with a running command, or the last one, is closed only after a question: nothing is
/// dropped before.
pub proof fn other_tabs_are_closed_after_a_question(app: AppView, index: int, now: u64)
    requires
        0 <= index < app.sessions.len(),
        app.sessions.len() == 1 || session::is_running(app.sessions[index], now),
    ensures
        ({
            let after = groups::close_requested(app, index, now);
            &&& after.input_mode == (InputModeView::ConfirmClose {
                session_id: app.sessions[index].id,
            })
            &&& after.sessions.len() == app.sessions.len()
            &&& after.active == app.active
            &&& after.group_layouts == app.group_layouts
            &&& groups::close_request(app, index, now) is Idle
        }),
{
}

/// The question is answered with `y`, `Y` or the enter key, which close the session, or with `n`,
/// `N` or the escape key, which do not. Every other key leaves the question open.
pub proof fn the_question_is_answered_by_keys(
    app: AppView,
    session_id: u64,
    key: KeyEvent,
    now: u64,
)
    requires
        key.kind == KeyEventKind::Press,
        app.input_mode == (InputModeView::ConfirmClose { session_id }),
        app.prefix_started is None,
    ensures
        ({
            let (after, left) = input::keyed(app, key, now);
            let yes = key.code == KeyCode::Char('y') || key.code == KeyCode::Char('Y') || key.code
                == KeyCode::Enter;
            let no = key.code == KeyCode::Char('n') || key.code == KeyCode::Char('N') || key.code
                == KeyCode::Esc;
            &&& no ==> after == (AppView { input_mode: InputModeView::Normal, ..app })
                && left is Idle
            &&& !yes && !no ==> after == app && left is Idle
            &&& yes ==> after.input_mode is Normal && match session::position_of(
                app.sessions,
                session_id,
            ) {
                Some(index) => after.sessions == groups::closed(app, index).sessions
                    && after.active == groups::closed(app, index).active && after.exit_requested
                    == groups::closed(app, index).exit_requested && left == groups::closing(
                    app,
                    index,
                ),
                None => after.sessions == app.sessions && left is Idle,
            }
        }),
{
}

/// A session that no command was sent to, and in which none is restored, has no running command. A
/// command that was sent runs until the shell is in the foreground of its terminal again. A
/// restored command runs until its time is over in any case.
pub proof fn commands_run_until_the_shell_is_back(session: SessionView, now: u64)
    ensures
        session.restore_grace_until is None && !session.pending ==> !session::is_running(
            session,
            now,
        ),
        session.restore_grace_until matches Some(until) ==> (now < until ==> session::is_running(
            session,
            now,
        )) && (now >= until && !session.pending ==> !session::is_running(session, now)),
        session.pending && (session.foreground is None || session.shell_pid is None)
            ==> session::is_running(session, now),
        session.pending ==> (session.foreground matches Some(group) ==> (
        session.shell_pid matches Some(shell) ==> {
            &&& group <= 0 || group as int != shell as int ==> session::is_running(session, now)
            &&& group > 0 && group as int == shell as int && (session.restore_grace_until is None
                || now >= session.restore_grace_until->0) ==> !session::is_running(session, now)
        })),
{
}

/// The shell that is started for a new tab gets the next id and the size of the terminal area, with
/// at least two rows and columns, in the directory of the active session.
pub open spec fn is_new_shell(app: AppView, request: SpawnRequest) -> bool {
    &&& request.id == app.next_session_id
    &&& app.hits.terminal.height >= 2 ==> request.rows == app.hits.terminal.height
    &&& app.hits.terminal.height < 2 ==> request.rows == 2
    &&& app.hits.terminal.width >= 2 ==> request.cols == app.hits.terminal.width
    &&& app.hits.terminal.width < 2 ==> request.cols == 2
    &&& app.active < app.sessions.len() ==> request.beside == Some(app.active)
    &&& app.active >= app.sessions.len() ==> request.beside is None
}

/// The keyboard is used for the terminal, and no prefix key waits.
pub open spec fn is_plain_press(app: AppView, key: KeyEvent) -> bool {
    key.kind == KeyEventKind::Press && app.input_mode is Normal && app.prefix_started is None
}

/// Ctrl-Q ends the program, and Ctrl-T starts a shell. Neither changes the workspace.
pub proof fn control_keys_do_what_is_promised(app: AppView, key: KeyEvent, now: u64)
    requires
        is_plain_press(app, key),
        key.modifiers.control,
    ensures
        key.code == KeyCode::Char('q') ==> input::keyed(app, key, now).0 == app && input::keyed(
            app,
            key,
            now,
        ).1 is Quit,
        key.code == KeyCode::Char('t') ==> input::keyed(app, key, now).0 == app && (input::keyed(
            app,
            key,
            now,
        ).1 matches ActionView::Spawn(request) && is_new_shell(app, request)),
{
}

/// Every other key goes to the active session, as the bytes that it sends.
pub proof fn other_keys_go_to_the_terminal(app: AppView, key: KeyEvent, now: u64)
    requires
        is_plain_press(app, key),
        app.active < app.sessions.len(),
        !(key.modifiers.control && (key.code == KeyCode::Char('b') || key.code == KeyCode::Char('q')
            || key.code == KeyCode::Char('t'))),
    ensures
        ({
            let (after, left) = input::keyed(app, key, now);
            &&& after == (AppView { sessions: after.sessions, ..app })
            &&& after.sessions.len() == app.sessions.len()
            &&& match terminal::key_bytes(key) {
                Some(bytes) => left == (ActionView::Write { index: app.active, bytes }),
                None => left is Idle,
            }
        }),
{
}

/// What is typed is noted: a character is added to the line, and the backspace key takes the last
/// one away. Other keys, and characters with the control key, leave the line.
pub proof fn typed_characters_are_noted(app: AppView, key: KeyEvent, now: u64)
    requires
        is_plain_press(app, key),
        app.active < app.sessions.len(),
        !(key.modifiers.control && (key.code == KeyCode::Char('b') || key.code == KeyCode::Char('q')
            || key.code == KeyCode::Char('t'))),
        key.code != KeyCode::Enter,
    ensures
        ({
            let before = app.sessions[app.active as int];
            let after = input::keyed(app, key, now).0.sessions[app.active as int];
            let line = before.input_line;
            &&& after == (SessionView { input_line: after.input_line, ..before })
            &&& (key.code matches KeyCode::Char(c) && !key.modifiers.control) ==> (
            key.code matches KeyCode::Char(c) && after.input_line == line.push(c))
            &&& key.code == KeyCode::Backspace ==> after.input_line == if line.len() > 0 {
                line.drop_last()
            } else {
                line
            }
            &&& !(key.code is Char) && key.code != KeyCode::Backspace || key.code is Char
                && key.modifiers.control ==> after.input_line == line
        }),
{
}

/// The enter key takes the typed line as a command, without the white space around it, unless it is
/// blank. It becomes the last command, unless another one is running. The line is empty then.
pub proof fn the_enter_key_sends_a_command(app: AppView, key: KeyEvent, now: u64)
    requires
        is_plain_press(app, key),
        app.active < app.sessions.len(),
        key.code == KeyCode::Enter,
    ensures
        ({
            let before = app.sessions[app.active as int];
            let after = input::keyed(app, key, now).0.sessions[app.active as int];
            let command = text::trimmed(before.input_line);
            &&& after.input_line.len() == 0
            &&& after == (SessionView {
                input_line: after.input_line,
                last_command: after.last_command,
                pending: after.pending,
                ..before
            })
            &&& command.len() == 0 ==> after.last_command == before.last_command && after.pending
                == before.pending
            &&& command.len() > 0 ==> after.pending
            &&& command.len() > 0 && !session::is_running(before, now) ==> after.last_command
                == Some(command)
            &&& session::is_running(before, now) ==> after.last_command == before.last_command
        }),
{
}

/// A prefix key that was pressed more than a second ago does not count any more.
pub proof fn the_prefix_key_is_forgotten_after_a_second(
    app: AppView,
    key: KeyEvent,
    started: u64,
    now: u64,
)
    requires
        key.kind == KeyEventKind::Press,
        app.prefix_started == Some(started),
        now > started + 1_000_000_000,
    ensures
        input::keyed(app, key, now) == input::keyed(
            AppView { prefix_started: None, ..app },
            key,
            now,
        ),
{
}

/// After the prefix key, `t` starts a shell, `w` closes the active tab, `s` collapses or expands
/// the sidebar, and Ctrl-B sends its own byte to the active session. Every such key ends the wait
/// for it, and a key without a meaning does nothing else.
pub proof fn prefix_keys_do_what_the_hint_says(app: AppView, key: KeyEvent, c: char, now: u64)
    requires
        focus_laws::follows_prefix(app, key, now),
        key.code == KeyCode::Char(c),
        app.active < app.sessions.len(),
    ensures
        ({
            let (after, left) = input::keyed(app, key, now);
            let start = AppView { prefix_started: None, ..app };
            &&& after.prefix_started is None
            &&& c == 't' || c == 'T' ==> after == start && (left matches ActionView::Spawn(request)
                && is_new_shell(app, request))
            &&& c == 'w' || c == 'W' ==> after == groups::close_requested(
                start,
                app.active as int,
                now,
            ) && left == groups::close_request(start, app.active as int, now)
            &&& c == 's' ==> after.manual_collapse == !app.sidebar_collapsed && after.sessions
                == app.sessions && after.active == app.active && left is Resize
            &&& c == 's' && app.last_area.width >= 72 ==> after.sidebar_collapsed
                == !app.sidebar_collapsed
            &&& c == 'b' && key.modifiers.control ==> after == start && left
                == (ActionView::Write { index: app.active, bytes: seq![2u8] })
            &&& c == 'b' && !key.modifiers.control ==> after == start && left is Idle
            &&& !('0' <= c <= '9') && c != 'h' && c != 'j' && c != 'k' && c != 'l' && c != 't' && c
                != 'T' && c != 'w' && c != 'W' && c != 's' && c != 'b' ==> after == start
                && left is Idle
        }),
{
}

/// While a name is edited, the escape key gives up, and the enter key gives the name, without the
/// white space around it, to the tab. A blank name clears it. Other keys edit the name, and nothing
/// is sent to a terminal.
pub proof fn names_are_edited_by_keys(
    app: AppView,
    session_id: u64,
    value: Seq<char>,
    key: KeyEvent,
    now: u64,
)
    requires
        key.kind == KeyEventKind::Press,
        app.input_mode == (InputModeView::Rename { session_id, value }),
        app.prefix_started is None,
    ensures
        ({
            let (after, left) = input::keyed(app, key, now);
            let name = text::trimmed(value);
            &&& left is Idle
            &&& key.code == KeyCode::Esc ==> after == (AppView {
                input_mode: InputModeView::Normal,
                ..app
            })
            &&& key.code == KeyCode::Enter ==> after.input_mode is Normal && (
            session::position_of(app.sessions, session_id) matches Some(index)
                ==> after.sessions == app.sessions.update(
                index,
                SessionView {
                    custom_name: if name.len() > 0 { Some(name) } else { None },
                    ..app.sessions[index]
                },
            ))
            &&& (key.code matches KeyCode::Char(c) && !key.modifiers.control) ==> (
            key.code matches KeyCode::Char(c) && after == (AppView {
                input_mode: InputModeView::Rename { session_id, value: value.push(c) },
                ..app
            }))
            &&& key.code == KeyCode::Backspace && value.len() > 0 ==> after == (AppView {
                input_mode: InputModeView::Rename { session_id, value: value.drop_last() },
                ..app
            })
        }),
{
}

/// The name of a group is edited in the same way.
pub proof fn group_names_are_edited_by_keys(
    app: AppView,
    group_id: u64,
    value: Seq<char>,
    key: KeyEvent,
    now: u64,
)
    requires
        key.kind == KeyEventKind::Press,
        app.input_mode == (InputModeView::RenameGroup { group_id, value }),
        app.prefix_started is None,
    ensures
        ({
            let (after, left) = input::keyed(app, key, now);
            let name = text::trimmed(value);
            &&& left is Idle
            &&& after.sessions == app.sessions
            &&& key.code == KeyCode::Esc ==> after == (AppView {
                input_mode: InputModeView::Normal,
                ..app
            })
            &&& key.code == KeyCode::Enter ==> after == (AppView {
                input_mode: InputModeView::Normal,
                group_names: if name.len() > 0 {
                    app.group_names.insert(group_id, name)
                } else {
                    app.group_names.remove(group_id)
                },
                ..app
            })
            &&& (key.code matches KeyCode::Char(c) && !key.modifiers.control) ==> (
            key.code matches KeyCode::Char(c) && after == (AppView {
                input_mode: InputModeView::RenameGroup { group_id, value: value.push(c) },
                ..app
            }))
            &&& key.code == KeyCode::Backspace && value.len() > 0 ==> after == (AppView {
                input_mode: InputModeView::RenameGroup { group_id, value: value.drop_last() },
                ..app
            })
        }),
{
}

/// A new session stands at the end, gets the next id, and is the active one. The next session gets
/// the id behind it.
pub proof fn new_sessions_stand_at_the_end(app: AppView, cwd: Seq<u8>, shell_pid: Option<u32>)
    requires
        event_laws::is_sound(app),
        app.sessions.len() < usize::MAX,
        app.next_session_id < u64::MAX,
    ensures
        ({
            let after = app::with_session(app, cwd, shell_pid);
            let added = after.sessions[after.active as int];
            &&& after.sessions.drop_last() == app.sessions
            &&& after.active == app.sessions.len()
            &&& added.id == app.next_session_id
            &&& added.cwd == cwd
            &&& added.shell_pid == shell_pid
            &&& added.group is None && added.custom_name is None && added.last_command is None
            &&& !session::is_running(added, 0)
            &&& after.next_session_id == app.next_session_id + 1
            &&& after.group_layouts == app.group_layouts && after.group_names == app.group_names
        }),
{
    assert(app::with_session(app, cwd, shell_pid).sessions.drop_last() =~= app.sessions);
}

/// A pasted text is sent to the active session as it is, in UTF-8, line ends included. Only that
/// session changes.
pub proof fn pasted_texts_are_sent_as_they_are(app: AppView, pasted: Seq<char>, now: u64)
    ensures
        app.active < app.sessions.len() ==> input::pasting(app, pasted) == (ActionView::Write {
            index: app.active,
            bytes: vstd::utf8::encode_utf8(pasted),
        }),
        app.active >= app.sessions.len() ==> input::pasting(app, pasted) is Idle
            && input::pasted_in(app, pasted, now) == app,
{
}

/// Looking at a session notes the end of a command, and changes nothing else: a command that was
/// sent is not pending any more once the shell is back in the foreground, unless it was restored
/// and its time is not over.
pub proof fn the_end_of_a_command_is_noted(session: SessionView, now: u64)
    ensures
        session::settled(session, now) == (SessionView {
            pending: session::settled(session, now).pending,
            ..session
        }),
        session::settled(session, now).pending ==> session.pending,
        session.pending && session::is_running(session, now) ==> session::settled(
            session,
            now,
        ).pending,
        !session::is_running(session, now) ==> !session::settled(session, now).pending,
{
}

/// A pasted text without line ends is added to the typed line.
pub proof fn pasted_words_are_added_to_the_line(app: AppView, pasted: Seq<char>, now: u64)
    requires
        app.active < app.sessions.len(),
        !pasted.contains('\n'),
        !pasted.contains('\r'),
    ensures
        ({
            let before = app.sessions[app.active as int];
            let after = input::pasted_in(app, pasted, now).sessions[app.active as int];
            after == (SessionView { input_line: before.input_line + pasted, ..before })
        }),
{
    text_laws::texts_without_returns_are_normal(pasted);
}

/// A pasted text with line ends: what follows the last of them is the new line, and the last line
/// that is not blank is taken as a command.
pub proof fn pasted_lines_are_commands(app: AppView, pasted: Seq<char>, now: u64) -> (line: int)
    requires
        app.active < app.sessions.len(),
        pasted.contains('\n'),
        !pasted.contains('\r'),
    ensures
        ({
            let before = app.sessions[app.active as int];
            let after = input::pasted_in(app, pasted, now).sessions[app.active as int];
            let lines = text::split(pasted, '\n');
            &&& -1 <= line < lines.len()
            &&& forall|i: int| line < i < lines.len() ==> text::trimmed(#[trigger] lines[i]).len()
                == 0
            &&& after.input_line == lines[lines.len() - 1]
            &&& line == -1 ==> after.last_command == before.last_command && after.pending
                == before.pending
            &&& line >= 0 ==> text::trimmed(lines[line]).len() > 0 && after.pending && (
            !session::is_running(before, now) ==> after.last_command == Some(
                text::trimmed(lines[line]),
            ))
            &&& session::is_running(before, now) ==> after.last_command == before.last_command
        }),
{
    text_laws::texts_without_returns_are_normal(pasted);
    text_laws::pieces_make_up_the_text(pasted, '\n');
    let lines = text::split(pasted, '\n');
    lemma_last_line(lines, lines.len() as int)
}

proof fn lemma_last_line(lines: Seq<Seq<char>>, count: int) -> (line: int)
    requires
        0 <= count <= lines.len(),
    ensures
        -1 <= line < count,
        forall|i: int| line < i < count ==> text::trimmed(#[trigger] lines[i]).len() == 0,
        line == -1 ==> input::last_line(lines, count) is None,
        line >= 0 ==> input::last_line(lines, count) == Some(lines[line]) && text::trimmed(
            lines[line],
        ).len() > 0,
    decreases count,
{
    if count == 0 {
        -1
    } else if text::trimmed(lines[count - 1]).len() > 0 {
        count - 1
    } else {
        lemma_last_line(lines, count - 1)
    }
}

/// After the prefix key, a key that is neither a character nor the left or right arrow does nothing
/// but end the wait.
pub proof fn other_prefix_keys_do_nothing(app: AppView, key: KeyEvent, now: u64)
    requires
        focus_laws::follows_prefix(app, key, now),
        !(key.code is Char),
        key.code != KeyCode::Left,
        key.code != KeyCode::Right,
    ensures
        input::keyed(app, key, now) == (
            AppView { prefix_started: None, ..app },
            ActionView::Idle,
        ),
{
}

} // verus!
