//! A terminal session as the workspace sees it.

use crate::labels;
use crate::labels::display_name_for;
use crate::paths;
use crate::paths::strip_prefix;
use crate::text;
use crate::text::shown_text;
use vstd::prelude::*;

verus! {

/// The text of an optional string.
pub open spec fn text_of(value: Option<String>) -> Option<Seq<char>> {
    match value {
        Some(text) => Some(text@),
        None => None,
    }
}

/// One shell and what the workspace knows about it.
pub struct Session {
    pub id: u64,
    pub custom_name: Option<String>,
    pub last_command: Option<String>,
    /// What was typed since the last line end.
    pub input_line: String,
    /// The working directory, as last reported. A path need not be a text.
    pub cwd: Vec<u8>,
    /// A command was started and its end was not seen yet.
    pub pending: bool,
    /// The pane group, if the session is in one.
    pub group: Option<u64>,
    /// The foreground process group of the terminal, as last reported.
    pub foreground: Option<i32>,
    pub shell_pid: Option<u32>,
    /// Until this time a restored command counts as running.
    pub restore_grace_until: Option<u64>,
}

/// A session with its texts and its directory as sequences.
pub struct SessionView {
    pub id: u64,
    pub custom_name: Option<Seq<char>>,
    pub last_command: Option<Seq<char>>,
    pub input_line: Seq<char>,
    pub cwd: Seq<u8>,
    pub pending: bool,
    pub group: Option<u64>,
    pub foreground: Option<i32>,
    pub shell_pid: Option<u32>,
    pub restore_grace_until: Option<u64>,
}

impl View for Session {
    type V = SessionView;

    open spec fn view(&self) -> SessionView {
        SessionView {
            id: self.id,
            custom_name: text_of(self.custom_name),
            last_command: text_of(self.last_command),
            input_line: self.input_line@,
            cwd: self.cwd@,
            pending: self.pending,
            group: self.group,
            foreground: self.foreground,
            shell_pid: self.shell_pid,
            restore_grace_until: self.restore_grace_until,
        }
    }
}

/// A restored command still counts as running.
pub open spec fn in_grace(session: SessionView, now: u64) -> bool {
    session.restore_grace_until matches Some(until) && now < until
}

/// The shell itself is in the foreground of its terminal, so no command is.
pub open spec fn at_prompt(session: SessionView) -> bool {
    session.foreground matches Some(group) && session.shell_pid matches Some(shell) && group > 0
        && group as int == shell as int
}

/// A command is running in the session.
pub open spec fn is_running(session: SessionView, now: u64) -> bool {
    in_grace(session, now) || (session.pending && !at_prompt(session))
}

/// The session after a look at whether a command is running: a command that has ended is not
/// pending any more.
pub open spec fn settled(session: SessionView, now: u64) -> SessionView {
    if !in_grace(session, now) && session.pending && at_prompt(session) {
        SessionView { pending: false, ..session }
    } else {
        session
    }
}

/// The name of the tab of a session.
pub open spec fn session_name(session: SessionView) -> Seq<char> {
    labels::tab_name(session.custom_name, session.last_command)
}

/// A directory as it is shown: below the home directory with a tilde.
pub open spec fn directory_text(cwd: Seq<u8>, home: Option<Seq<u8>>) -> Seq<char> {
    match home {
        Some(home) => match paths::stripped(cwd, home) {
            Some(rest) => if rest.len() == 0 { "~"@ } else { "~/"@ + text::shown(rest) },
            None => text::shown(cwd),
        },
        None => text::shown(cwd),
    }
}

/// A session whose shell was just started.
pub open spec fn fresh_session(id: u64, cwd: Seq<u8>, shell_pid: Option<u32>) -> SessionView {
    SessionView {
        id,
        custom_name: None,
        last_command: None,
        input_line: Seq::empty(),
        cwd,
        pending: false,
        group: None,
        foreground: None,
        shell_pid,
        restore_grace_until: None,
    }
}

impl Session {
    /// A session whose shell was just started.
    pub fn fresh(id: u64, cwd: Vec<u8>, shell_pid: Option<u32>) -> (r: Session)
        ensures
            r@ == fresh_session(id, cwd@, shell_pid),
    {
        Session {
            id,
            custom_name: None,
            last_command: None,
            input_line: String::new(),
            cwd,
            pending: false,
            group: None,
            foreground: None,
            shell_pid,
            restore_grace_until: None,
        }
    }

    /// Whether a command is running in the session at the time `now`.
    pub fn is_pending(&mut self, now: u64) -> (r: bool)
        ensures
            r == is_running(old(self)@, now),
            final(self)@ == settled(old(self)@, now),
    {
        if let Some(until) = self.restore_grace_until {
            if now < until {
                return true;
            }
        }
        if !self.pending {
            return false;
        }
        if let Some(group) = self.foreground {
            if let Some(shell) = self.shell_pid {
                if group > 0 && group as u32 == shell {
                    self.pending = false;
                    return false;
                }
            }
        }
        true
    }

    /// The name of the tab of the session.
    pub fn display_name(&self) -> (r: &str)
        ensures
            r@ == session_name(self@),
    {
        let custom_name = match &self.custom_name {
            Some(name) => Some(name.as_str()),
            None => None,
        };
        let last_command = match &self.last_command {
            Some(command) => Some(command.as_str()),
            None => None,
        };
        display_name_for(custom_name, last_command)
    }

    /// The working directory as it is shown, given the home directory.
    pub fn directory_label(&self, home: Option<&[u8]>) -> (r: String)
        ensures
            r@ == directory_text(self@.cwd, text::borrowed_bytes(home)),
    {
        if let Some(home) = home {
            if let Some(rest) = strip_prefix(self.cwd.as_slice(), home) {
                if rest.len() == 0 {
                    return "~".to_owned();
                }
                let shown = shown_text(rest.as_slice());
                return "~/".to_owned().concat(shown.as_str());
            }
        }
        shown_text(self.cwd.as_slice())
    }
}

/// Looking whether a command is running does not change the answer.
pub proof fn looking_changes_no_answer(session: SessionView, now: u64)
    ensures
        is_running(settled(session, now), now) == is_running(session, now),
        settled(settled(session, now), now) == settled(session, now),
{
}

/// The views of a list of sessions.
pub open spec fn session_views(sessions: Seq<Session>) -> Seq<SessionView> {
    Seq::new(sessions.len(), |i: int| sessions[i]@)
}

/// The place of the first session with the given id, from `from` on.
pub open spec fn position_from(sessions: Seq<SessionView>, id: u64, from: int) -> Option<int>
    decreases sessions.len() - from,
{
    if from < 0 || from >= sessions.len() {
        None
    } else if sessions[from].id == id {
        Some(from)
    } else {
        position_from(sessions, id, from + 1)
    }
}

/// The place of the first session with the given id.
pub open spec fn position_of(sessions: Seq<SessionView>, id: u64) -> Option<int> {
    position_from(sessions, id, 0)
}

/// The place of the first session with the given id.
pub fn session_position(sessions: &[Session], id: u64) -> (r: Option<usize>)
    ensures
        r is Some <==> position_of(session_views(sessions@), id) is Some,
        r matches Some(i) ==> position_of(session_views(sessions@), id) == Some(i as int) && i
            < sessions@.len() && sessions@[i as int].id == id,
{
    let mut i: usize = 0;
    while i < sessions.len()
        invariant
            i <= sessions@.len(),
            position_of(session_views(sessions@), id) == position_from(
                session_views(sessions@),
                id,
                i as int,
            ),
        decreases sessions@.len() - i,
    {
        if sessions[i].id == id {
            return Some(i);
        }
        i += 1;
    }
    None
}

/// The position found is the first place of the id, if it has one.
pub(crate) proof fn lemma_position(sessions: Seq<SessionView>, id: u64, from: int)
    requires
        0 <= from,
    ensures
        position_from(sessions, id, from) matches Some(i) ==> from <= i < sessions.len()
            && sessions[i].id == id && forall|j: int| from <= j < i ==> sessions[j].id != id,
        position_from(sessions, id, from) is None ==> forall|j: int|
            from <= j < sessions.len() ==> sessions[j].id != id,
    decreases sessions.len() - from,
{
    if from < sessions.len() && sessions[from].id != id {
        lemma_position(sessions, id, from + 1);
    }
}

pub(crate) proof fn lemma_same_ids(a: Seq<SessionView>, b: Seq<SessionView>, id: u64, from: int)
    requires
        a.len() == b.len(),
        forall|i: int| 0 <= i < a.len() ==> (#[trigger] a[i]).id == b[i].id,
        0 <= from,
    ensures
        position_from(a, id, from) == position_from(b, id, from),
    decreases a.len() - from,
{
    if from < a.len() {
        assert(a[from].id == b[from].id);
        lemma_same_ids(a, b, id, from + 1);
    }
}

} // verus!
