//! The workspace as it is kept between two runs of the program.

use crate::app;
use crate::app::{App, AppView, HitAreas, InputMode, InputModeView};
use crate::geometry;
use crate::geometry::{terminal_area, Rect, MOBILE_THRESHOLD};
use crate::groups;
use crate::labels;
use crate::layout::PaneLayout;
use crate::session;
use crate::session::{session_position, Session, SessionView};
use crate::terminal;
use crate::text::same_bytes;
use std::collections::HashMap;
use vstd::prelude::*;

verus! {

/// The version of the format of a snapshot.
pub const WORKSPACE_VERSION: u32 = 1;

/// How long a restarted command counts as running in any case, in nanoseconds.
pub const RESTORE_GRACE: u64 = 3_000_000_000;

/// A session as it is kept.
pub struct PersistedSession {
    pub id: u64,
    pub custom_name: Option<String>,
    pub last_command: Option<String>,
    pub cwd: Vec<u8>,
    pub group: Option<u64>,
    /// The command that was running.
    pub running_command: Option<String>,
}

/// A session as it is kept, with texts and the directory as sequences.
pub struct PersistedSessionView {
    pub id: u64,
    pub custom_name: Option<Seq<char>>,
    pub last_command: Option<Seq<char>>,
    pub cwd: Seq<u8>,
    pub group: Option<u64>,
    pub running_command: Option<Seq<char>>,
}

impl View for PersistedSession {
    type V = PersistedSessionView;

    open spec fn view(&self) -> PersistedSessionView {
        PersistedSessionView {
            id: self.id,
            custom_name: session::text_of(self.custom_name),
            last_command: session::text_of(self.last_command),
            cwd: self.cwd@,
            group: self.group,
            running_command: session::text_of(self.running_command),
        }
    }
}

/// The workspace as it is kept.
pub struct WorkspaceSnapshot {
    pub version: u32,
    pub active_session: u64,
    pub next_session_id: u64,
    pub next_group_id: u64,
    pub sessions: Vec<PersistedSession>,
    pub group_names: HashMap<u64, String>,
    pub group_layouts: HashMap<u64, PaneLayout>,
}

/// The workspace as it is kept, with lists, maps and texts as mathematical values.
pub struct WorkspaceSnapshotView {
    pub version: u32,
    pub active_session: u64,
    pub next_session_id: u64,
    pub next_group_id: u64,
    pub sessions: Seq<PersistedSessionView>,
    pub group_names: Map<u64, Seq<char>>,
    pub group_layouts: Map<u64, PaneLayout>,
}

/// The views of a list of kept sessions.
pub open spec fn persisted_views(sessions: Seq<PersistedSession>) -> Seq<PersistedSessionView> {
    Seq::new(sessions.len(), |i: int| sessions[i]@)
}

impl View for WorkspaceSnapshot {
    type V = WorkspaceSnapshotView;

    open spec fn view(&self) -> WorkspaceSnapshotView {
        WorkspaceSnapshotView {
            version: self.version,
            active_session: self.active_session,
            next_session_id: self.next_session_id,
            next_group_id: self.next_group_id,
            sessions: persisted_views(self.sessions@),
            group_names: labels::name_texts(self.group_names@),
            group_layouts: self.group_layouts@,
        }
    }
}

/// The view of an optional snapshot.
pub open spec fn snapshot_view(snapshot: Option<WorkspaceSnapshot>) -> Option<
    WorkspaceSnapshotView,
> {
    match snapshot {
        Some(snapshot) => Some(snapshot@),
        None => None,
    }
}

/// A snapshot is used if its version is the current one.
pub open spec fn usable(snapshot: Option<WorkspaceSnapshotView>) -> Option<WorkspaceSnapshotView> {
    match snapshot {
        Some(snapshot) => if snapshot.version == WORKSPACE_VERSION {
            Some(snapshot)
        } else {
            None
        },
        None => None,
    }
}

/// Drops a snapshot of another version.
pub fn usable_snapshot(snapshot: Option<WorkspaceSnapshot>) -> (r: Option<WorkspaceSnapshot>)
    ensures
        snapshot_view(r) == usable(snapshot_view(snapshot)),
{
    match snapshot {
        Some(snapshot) => if snapshot.version == WORKSPACE_VERSION {
            Some(snapshot)
        } else {
            None
        },
        None => None,
    }
}

/// The sessions of a snapshot.
pub open spec fn kept_sessions(snapshot: Option<WorkspaceSnapshotView>) -> Seq<
    PersistedSessionView,
> {
    match snapshot {
        Some(snapshot) => snapshot.sessions,
        None => Seq::empty(),
    }
}

/// A shell that is started with the workspace.
pub struct Launch {
    pub id: u64,
    pub rows: u16,
    pub cols: u16,
    /// The directory that it is started in, if that is known.
    pub cwd: Option<Vec<u8>>,
}

/// A shell that is started with the workspace, with its directory as a sequence of bytes.
pub struct LaunchView {
    pub id: u64,
    pub rows: u16,
    pub cols: u16,
    pub cwd: Option<Seq<u8>>,
}

impl View for Launch {
    type V = LaunchView;

    open spec fn view(&self) -> LaunchView {
        LaunchView {
            id: self.id,
            rows: self.rows,
            cols: self.cols,
            cwd: terminal::bytes_of(self.cwd),
        }
    }
}

/// The views of a list of shells.
pub open spec fn launch_views(list: Seq<Launch>) -> Seq<LaunchView> {
    Seq::new(list.len(), |i: int| list[i]@)
}

/// A shell of the size of the terminal beside the sidebar, which is collapsed on a narrow screen,
/// but with at least two rows and columns.
pub open spec fn launched(id: u64, cwd: Option<Seq<u8>>, area: Rect) -> LaunchView {
    let terminal = geometry::terminal_rect(area, area.width < MOBILE_THRESHOLD);
    LaunchView {
        id,
        rows: geometry::greater(terminal.height as int, 2) as u16,
        cols: geometry::greater(terminal.width as int, 2) as u16,
        cwd,
    }
}

/// The shells that are started with the workspace: one for each session of the snapshot, or one for
/// a first session.
pub open spec fn launches(snapshot: Option<WorkspaceSnapshotView>, area: Rect) -> Seq<LaunchView> {
    let kept = kept_sessions(snapshot);
    if kept.len() == 0 {
        seq![launched(1, None, area)]
    } else {
        Seq::new(kept.len(), |i: int| launched(kept[i].id, Some(kept[i].cwd), area))
    }
}

/// The shells to be started with the workspace.
pub fn launch_list(snapshot: &Option<WorkspaceSnapshot>, area: Rect) -> (r: Vec<Launch>)
    requires
        area.wf(),
    ensures
        launch_views(r@) == launches(snapshot_view(*snapshot), area),
{
    let terminal = terminal_area(area, area.width < MOBILE_THRESHOLD);
    let rows: u16 = if terminal.height >= 2 { terminal.height } else { 2 };
    let cols: u16 = if terminal.width >= 2 { terminal.width } else { 2 };
    let ghost kept = kept_sessions(snapshot_view(*snapshot));
    let mut r: Vec<Launch> = Vec::new();
    if let Some(snapshot) = snapshot {
        assert(kept == persisted_views(snapshot.sessions@));
        for i in 0..snapshot.sessions.len()
            invariant
                kept == persisted_views(snapshot.sessions@),
                rows == launched(1, None, area).rows,
                cols == launched(1, None, area).cols,
                r@.len() == i,
                forall|j: int|
                    0 <= j < i ==> (#[trigger] r@[j])@ == launched(
                        kept[j].id,
                        Some(kept[j].cwd),
                        area,
                    ),
        {
            let persisted = &snapshot.sessions[i];
            assert(kept[i as int] == persisted@);
            r.push(Launch { id: persisted.id, rows, cols, cwd: Some(same_bytes(&persisted.cwd)) });
        }
    }
    if r.len() == 0 {
        r.push(Launch { id: 1, rows, cols, cwd: None });
    }
    assert(launch_views(r@) =~= launches(snapshot_view(*snapshot), area));
    r
}

/// A shell that was started.
pub struct Started {
    /// The directory that it was started in.
    pub cwd: Vec<u8>,
    pub shell_pid: Option<u32>,
}

/// A shell that was started, with its directory as a sequence of bytes.
pub struct StartedView {
    pub cwd: Seq<u8>,
    pub shell_pid: Option<u32>,
}

impl View for Started {
    type V = StartedView;

    open spec fn view(&self) -> StartedView {
        StartedView { cwd: self.cwd@, shell_pid: self.shell_pid }
    }
}

/// The views of a list of started shells.
pub open spec fn started_views(list: Seq<Started>) -> Seq<StartedView> {
    Seq::new(list.len(), |i: int| list[i]@)
}

/// A session of a snapshot with its new shell. Its last command is taken over only if it was
/// running.
pub open spec fn restored(persisted: PersistedSessionView, started: StartedView) -> SessionView {
    SessionView {
        custom_name: persisted.custom_name,
        group: persisted.group,
        last_command: if persisted.running_command is Some {
            persisted.last_command
        } else {
            None
        },
        ..session::fresh_session(persisted.id, started.cwd, started.shell_pid)
    }
}

/// The sessions of the snapshot with their new shells, or a first session.
pub open spec fn first_sessions(
    kept: Seq<PersistedSessionView>,
    started: Seq<StartedView>,
) -> Seq<SessionView> {
    if kept.len() == 0 {
        seq![session::fresh_session(1, started[0].cwd, started[0].shell_pid)]
    } else {
        Seq::new(kept.len(), |i: int| restored(kept[i], started[i]))
    }
}

/// The smallest number above all ids.
pub open spec fn id_bound(sessions: Seq<SessionView>) -> int
    decreases sessions.len(),
{
    if sessions.len() == 0 {
        0
    } else {
        geometry::greater(id_bound(sessions.drop_last()), sessions.last().id + 1)
    }
}

/// The session while a command is restarted in it.
pub open spec fn resumed(session: SessionView, now: u64) -> SessionView {
    SessionView {
        pending: true,
        restore_grace_until: Some((now + RESTORE_GRACE) as u64),
        ..session
    }
}

/// The sessions after the running commands of the first `count` kept sessions were restarted.
pub open spec fn resumed_upto(
    sessions: Seq<SessionView>,
    kept: Seq<PersistedSessionView>,
    count: int,
    now: u64,
) -> Seq<SessionView>
    decreases count,
{
    if count <= 0 {
        sessions
    } else {
        let before = resumed_upto(sessions, kept, count - 1, now);
        match session::position_of(before, kept[count - 1].id) {
            Some(index) => if kept[count - 1].running_command is Some {
                before.update(index, resumed(before[index], now))
            } else {
                before
            },
            None => before,
        }
    }
}

/// What is sent to the sessions to restart the running commands of the first `count` kept
/// sessions: each command and a line end, for the session with its id.
pub open spec fn restarts_upto(
    sessions: Seq<SessionView>,
    kept: Seq<PersistedSessionView>,
    count: int,
) -> Seq<(usize, Seq<u8>)>
    decreases count,
{
    if count <= 0 {
        Seq::empty()
    } else {
        let before = restarts_upto(sessions, kept, count - 1);
        match kept[count - 1].running_command {
            Some(command) => match session::position_of(sessions, kept[count - 1].id) {
                Some(index) => before.push(
                    (index as usize, vstd::utf8::encode_utf8(command + "\r"@)),
                ),
                None => before,
            },
            None => before,
        }
    }
}

/// The texts of a list of bytes for sessions.
pub open spec fn write_views(list: Seq<(usize, Vec<u8>)>) -> Seq<(usize, Seq<u8>)> {
    Seq::new(list.len(), |i: int| (list[i].0, list[i].1@))
}

/// The workspace at the start of the program, before commands are restarted.
pub open spec fn opened(
    area: Rect,
    host_terminal: Seq<char>,
    snapshot: Option<WorkspaceSnapshotView>,
    started: Seq<StartedView>,
) -> AppView {
    let sessions = first_sessions(kept_sessions(snapshot), started);
    let next = match snapshot {
        Some(snapshot) => snapshot.next_session_id as int,
        None => 2,
    };
    groups::cleaned(
        AppView {
            host_terminal,
            sessions,
            active: match snapshot {
                Some(snapshot) => match session::position_of(sessions, snapshot.active_session) {
                    Some(index) => index as usize,
                    None => 0,
                },
                None => 0,
            },
            sidebar_collapsed: area.width < MOBILE_THRESHOLD,
            manual_collapse: false,
            hits: app::no_hits(),
            last_area: area,
            next_session_id: geometry::greater(next, id_bound(sessions)) as u64,
            next_group_id: match snapshot {
                Some(snapshot) => snapshot.next_group_id,
                None => 1,
            },
            group_names: match snapshot {
                Some(snapshot) => snapshot.group_names,
                None => Map::empty(),
            },
            group_layouts: match snapshot {
                Some(snapshot) => snapshot.group_layouts,
                None => Map::empty(),
            },
            context_menu: None,
            input_mode: InputModeView::Normal,
            spinner_tick: 0,
            exit_requested: false,
            clear_workspace_on_exit: false,
            prefix_started: None,
            dragging_split: None,
        },
    )
}

/// The workspace at the start of the program.
pub open spec fn started_workspace(
    area: Rect,
    host_terminal: Seq<char>,
    snapshot: Option<WorkspaceSnapshotView>,
    started: Seq<StartedView>,
    now: u64,
) -> AppView {
    let app = opened(area, host_terminal, snapshot, started);
    let kept = kept_sessions(snapshot);
    AppView { sessions: resumed_upto(app.sessions, kept, kept.len() as int, now), ..app }
}

/// The command of a session that is kept for the next start: the last one, if it is running.
pub open spec fn running_command(session: SessionView, now: u64) -> Option<Seq<char>> {
    if session::is_running(session, now) {
        session.last_command
    } else {
        None
    }
}

/// A session as it is kept.
pub open spec fn persisted(session: SessionView, now: u64) -> PersistedSessionView {
    PersistedSessionView {
        id: session.id,
        custom_name: session.custom_name,
        last_command: session.last_command,
        cwd: session.cwd,
        group: session.group,
        running_command: running_command(session, now),
    }
}

/// The workspace as it is kept. Nothing is kept if the last tab was closed.
pub open spec fn snapshot_of(app: AppView, now: u64) -> WorkspaceSnapshotView {
    if app.clear_workspace_on_exit {
        WorkspaceSnapshotView {
            version: WORKSPACE_VERSION,
            active_session: 0,
            next_session_id: 1,
            next_group_id: 1,
            sessions: Seq::empty(),
            group_names: Map::empty(),
            group_layouts: Map::empty(),
        }
    } else {
        WorkspaceSnapshotView {
            version: WORKSPACE_VERSION,
            active_session: if app.active < app.sessions.len() {
                app.sessions[app.active as int].id
            } else {
                0
            },
            next_session_id: app.next_session_id,
            next_group_id: app.next_group_id,
            sessions: Seq::new(app.sessions.len(), |i: int| persisted(app.sessions[i], now)),
            group_names: app.group_names,
            group_layouts: app.group_layouts,
        }
    }
}

/// The sessions after a look at whether commands are running in them.
pub open spec fn all_settled(sessions: Seq<SessionView>, now: u64) -> Seq<SessionView> {
    Seq::new(sessions.len(), |i: int| session::settled(sessions[i], now))
}

/// The workspace after its snapshot was taken.
pub open spec fn snapshot_taken(app: AppView, now: u64) -> AppView {
    if app.clear_workspace_on_exit {
        app
    } else {
        AppView { sessions: all_settled(app.sessions, now), ..app }
    }
}

fn copied_text(value: &Option<String>) -> (r: Option<String>)
    ensures
        session::text_of(r) == session::text_of(*value),
{
    match value {
        Some(text) => Some(text.clone()),
        None => None,
    }
}

pub(crate) proof fn lemma_bound_below(sessions: Seq<SessionView>, next: u64)
    requires
        forall|i: int| 0 <= i < sessions.len() ==> (#[trigger] sessions[i]).id < next,
    ensures
        0 <= id_bound(sessions) <= next,
    decreases sessions.len(),
{
    if sessions.len() > 0 {
        assert(sessions[sessions.len() - 1].id < next);
        assert forall|i: int| 0 <= i < sessions.drop_last().len() implies (
        #[trigger] sessions.drop_last()[i]).id < next by {
            assert(sessions[i].id < next);
        }
        lemma_bound_below(sessions.drop_last(), next);
    }
}

/// The positions of sessions do not change when commands are restarted.
proof fn lemma_resumed_positions(
    sessions: Seq<SessionView>,
    kept: Seq<PersistedSessionView>,
    count: int,
    now: u64,
    id: u64,
)
    ensures
        resumed_upto(sessions, kept, count, now).len() == sessions.len(),
        session::position_of(resumed_upto(sessions, kept, count, now), id)
            == session::position_of(sessions, id),
        forall|i: int|
            0 <= i < sessions.len() ==> (#[trigger] resumed_upto(sessions, kept, count, now)[i]).id
                == sessions[i].id,
    decreases count,
{
    if count > 0 {
        lemma_resumed_positions(sessions, kept, count - 1, now, id);
        lemma_resumed_positions(sessions, kept, count - 1, now, kept[count - 1].id);
        let before = resumed_upto(sessions, kept, count - 1, now);
        let after = resumed_upto(sessions, kept, count, now);
        session::lemma_position(before, kept[count - 1].id, 0);
        session::lemma_same_ids(before, after, id, 0);
    }
}

/// The sessions with their new shells.
fn restore_sessions(kept: &Vec<PersistedSession>, started: &Vec<Started>) -> (r: Vec<Session>)
    requires
        started@.len() == geometry::greater(kept@.len() as int, 1),
    ensures
        session::session_views(r@) == first_sessions(
            persisted_views(kept@),
            started_views(started@),
        ),
{
    let ghost views = persisted_views(kept@);
    let ghost shells = started_views(started@);
    let mut r: Vec<Session> = Vec::new();
    for i in 0..kept.len()
        invariant
            views == persisted_views(kept@),
            shells == started_views(started@),
            started@.len() >= kept@.len(),
            r@.len() == i,
            forall|j: int| 0 <= j < i ==> (#[trigger] r@[j])@ == restored(views[j], shells[j]),
    {
        let persisted = &kept[i];
        assert(views[i as int] == persisted@);
        assert(shells[i as int] == started@[i as int]@);
        let mut session = Session::fresh(
            persisted.id,
            same_bytes(&started[i].cwd),
            started[i].shell_pid,
        );
        session.custom_name = copied_text(&persisted.custom_name);
        session.group = persisted.group;
        if persisted.running_command.is_some() {
            session.last_command = copied_text(&persisted.last_command);
        }
        r.push(session);
    }
    if r.len() == 0 {
        assert(shells[0] == started@[0]@);
        r.push(Session::fresh(1, same_bytes(&started[0].cwd), started[0].shell_pid));
    }
    assert(session::session_views(r@) =~= first_sessions(views, shells));
    r
}

fn bound_of_ids(sessions: &Vec<Session>) -> (r: u64)
    requires
        forall|i: int| 0 <= i < sessions@.len() ==> (#[trigger] sessions@[i]).id < u64::MAX,
    ensures
        r == id_bound(session::session_views(sessions@)),
{
    let ghost views = session::session_views(sessions@);
    let mut bound: u64 = 0;
    assert(views.take(0) =~= Seq::empty());
    for i in 0..sessions.len()
        invariant
            views == session::session_views(sessions@),
            forall|i: int| 0 <= i < sessions@.len() ==> (#[trigger] sessions@[i]).id < u64::MAX,
            bound == id_bound(views.take(i as int)),
    {
        assert(views.take(i + 1).drop_last() =~= views.take(i as int));
        assert(views.take(i + 1).last() == sessions@[i as int]@);
        let above = sessions[i].id + 1;
        if above > bound {
            bound = above;
        }
    }
    assert(views.take(views.len() as int) =~= views);
    bound
}

/// The ids in a snapshot leave room for a further session.
pub open spec fn ids_in_range(kept: Seq<PersistedSessionView>) -> bool {
    forall|i: int| 0 <= i < kept.len() ==> (#[trigger] kept[i]).id < u64::MAX
}

impl App {
    /// The workspace at the start of the program, from a usable snapshot and the shells that were
    /// started for it, and what is sent to them to restart the commands that were running.
    pub fn new(
        area: Rect,
        host_terminal: String,
        snapshot: Option<WorkspaceSnapshot>,
        started: Vec<Started>,
        now: u64,
    ) -> (r: (App, Vec<(usize, Vec<u8>)>))
        requires
            ids_in_range(kept_sessions(snapshot_view(snapshot))),
            started@.len() == launches(snapshot_view(snapshot), area).len(),
            now <= u64::MAX - RESTORE_GRACE,
        ensures
            r.0@ == started_workspace(
                area,
                host_terminal@,
                snapshot_view(snapshot),
                started_views(started@),
                now,
            ),
            write_views(r.1@) == restarts_upto(
                opened(
                    area,
                    host_terminal@,
                    snapshot_view(snapshot),
                    started_views(started@),
                ).sessions,
                kept_sessions(snapshot_view(snapshot)),
                kept_sessions(snapshot_view(snapshot)).len() as int,
            ),
    {
        let ghost view = snapshot_view(snapshot);
        let ghost kept_views = kept_sessions(view);
        let ghost shells = started_views(started@);
        let (active_session, next_id, next_group_id, kept, group_names, group_layouts) =
            match snapshot {
            Some(snapshot) => (
                Some(snapshot.active_session),
                snapshot.next_session_id,
                snapshot.next_group_id,
                snapshot.sessions,
                snapshot.group_names,
                snapshot.group_layouts,
            ),
            None => (None, 2, 1, Vec::new(), HashMap::new(), HashMap::new()),
        };
        assert(persisted_views(kept@) =~= kept_views);
        let sessions = restore_sessions(&kept, &started);
        let ghost first = session::session_views(sessions@);
        proof {
            assert forall|i: int| 0 <= i < sessions@.len() implies (#[trigger] sessions@[i]).id
                < u64::MAX by {
                assert(first[i] == sessions@[i]@);
                if kept_views.len() > 0 {
                    assert(kept_views[i].id < u64::MAX);
                }
            }
            assert forall|i: int| 0 <= i < first.len() implies (#[trigger] first[i]).id
                < u64::MAX by {
                assert(sessions@[i].id < u64::MAX);
            }
            lemma_bound_below(first, u64::MAX);
        }
        let bound = bound_of_ids(&sessions);
        let next_session_id: u64 = if bound > next_id { bound } else { next_id };
        let active: usize = match active_session {
            Some(id) => match session_position(sessions.as_slice(), id) {
                Some(index) => index,
                None => 0,
            },
            None => 0,
        };
        let mut app = App {
            host_terminal,
            sessions,
            active,
            sidebar_collapsed: area.width < MOBILE_THRESHOLD,
            manual_collapse: false,
            hits: HitAreas::default(),
            last_area: area,
            next_session_id,
            next_group_id,
            group_names,
            group_layouts,
            context_menu: None,
            input_mode: InputMode::Normal,
            spinner_tick: 0,
            exit_requested: false,
            clear_workspace_on_exit: false,
            prefix_started: None,
            dragging_split: None,
        };
        proof {
            if view is None {
                assert(app@.group_names =~= Map::empty());
                assert(app@.group_layouts =~= Map::empty());
            }
        }
        app.cleanup_groups();
        assert(app@ == opened(area, host_terminal@, view, shells));
        let writes = app.restart_commands(&kept, now);
        (app, writes)
    }

    fn restart_commands(&mut self, kept: &Vec<PersistedSession>, now: u64) -> (r: Vec<
        (usize, Vec<u8>),
    >)
        requires
            now <= u64::MAX - RESTORE_GRACE,
        ensures
            final(self)@ == (AppView {
                sessions: resumed_upto(
                    old(self)@.sessions,
                    persisted_views(kept@),
                    kept@.len() as int,
                    now,
                ),
                ..old(self)@
            }),
            write_views(r@) == restarts_upto(
                old(self)@.sessions,
                persisted_views(kept@),
                kept@.len() as int,
            ),
    {
        let ghost before = self@;
        let ghost views = persisted_views(kept@);
        let mut writes: Vec<(usize, Vec<u8>)> = Vec::new();
        assert(write_views(writes@) =~= Seq::empty());
        for i in 0..kept.len()
            invariant
                now <= u64::MAX - RESTORE_GRACE,
                views == persisted_views(kept@),
                self@ == (AppView {
                    sessions: resumed_upto(before.sessions, views, i as int, now),
                    ..before
                }),
                write_views(writes@) == restarts_upto(before.sessions, views, i as int),
        {
            let persisted = &kept[i];
            assert(views[i as int] == persisted@);
            let ghost sessions = self@.sessions;
            let ghost sent = write_views(writes@);
            proof {
                lemma_resumed_positions(before.sessions, views, i as int, now, persisted.id);
            }
            if let Some(command) = &persisted.running_command {
                if let Some(index) = session_position(self.sessions.as_slice(), persisted.id) {
                    self.sessions[index].pending = true;
                    self.sessions[index].restore_grace_until = Some(now + RESTORE_GRACE);
                    assert(self@.sessions =~= sessions.update(
                        index as int,
                        resumed(sessions[index as int], now),
                    ));
                    let line = command.clone().concat("\r");
                    writes.push((index, line.as_str().as_bytes_vec()));
                    assert(write_views(writes@) =~= sent.push(
                        (index, vstd::utf8::encode_utf8(command@ + "\r"@)),
                    ));
                }
            }
        }
        writes
    }

    /// The workspace as it is kept for the next start.
    pub fn workspace_snapshot(&mut self, now: u64) -> (r: WorkspaceSnapshot)
        ensures
            r@ == snapshot_of(old(self)@, now),
            final(self)@ == snapshot_taken(old(self)@, now),
    {
        let ghost before = self@;
        if self.clear_workspace_on_exit {
            let empty = WorkspaceSnapshot {
                version: WORKSPACE_VERSION,
                active_session: 0,
                next_session_id: 1,
                next_group_id: 1,
                sessions: Vec::new(),
                group_names: HashMap::new(),
                group_layouts: HashMap::new(),
            };
            assert(empty@.sessions =~= Seq::empty());
            assert(empty@.group_names =~= Map::empty());
            return empty;
        }
        let active_session: u64 = if self.active < self.sessions.len() {
            assert(before.sessions[self.active as int] == self.sessions@[self.active as int]@);
            self.sessions[self.active].id
        } else {
            0
        };
        let mut sessions: Vec<PersistedSession> = Vec::new();
        let mut i: usize = 0;
        while i < self.sessions.len()
            invariant
                i <= before.sessions.len(),
                self@ == (AppView { sessions: self@.sessions, ..before }),
                self@.sessions.len() == before.sessions.len(),
                self.sessions@.len() == before.sessions.len(),
                sessions@.len() == i,
                forall|j: int|
                    0 <= j < i ==> #[trigger] self@.sessions[j] == session::settled(
                        before.sessions[j],
                        now,
                    ),
                forall|j: int|
                    i <= j < before.sessions.len() ==> #[trigger] self@.sessions[j]
                        == before.sessions[j],
                forall|j: int|
                    0 <= j < i ==> (#[trigger] sessions@[j])@ == persisted(
                        before.sessions[j],
                        now,
                    ),
            decreases before.sessions.len() - i,
        {
            let ghost list = self@.sessions;
            assert(list[i as int] == self.sessions@[i as int]@);
            let running = self.sessions[i].is_pending(now);
            assert(self@.sessions =~= list.update(
                i as int,
                session::settled(before.sessions[i as int], now),
            ));
            let session = &self.sessions[i];
            sessions.push(
                PersistedSession {
                    id: session.id,
                    custom_name: copied_text(&session.custom_name),
                    last_command: copied_text(&session.last_command),
                    cwd: same_bytes(&session.cwd),
                    group: session.group,
                    running_command: if running {
                        copied_text(&session.last_command)
                    } else {
                        None
                    },
                },
            );
            i += 1;
        }
        assert(self@.sessions =~= all_settled(before.sessions, now));
        let snapshot = WorkspaceSnapshot {
            version: WORKSPACE_VERSION,
            active_session,
            next_session_id: self.next_session_id,
            next_group_id: self.next_group_id,
            sessions,
            group_names: self.group_names.clone(),
            group_layouts: self.group_layouts.clone(),
        };
        assert(snapshot@.sessions =~= snapshot_of(before, now).sessions);
        snapshot
    }
}

} // verus!
