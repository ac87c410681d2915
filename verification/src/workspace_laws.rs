//! What is brought back of a workspace that was kept.

use crate::app::AppView;
use crate::event_laws;
use crate::geometry::Rect;
use crate::groups;
use crate::session;
use crate::session::SessionView;
use crate::workspace;
use crate::workspace::{PersistedSessionView, StartedView};
use vstd::prelude::*;

verus! {

/// The sessions have the ids of the kept ones, and these differ from each other.
spec fn ids_match(sessions: Seq<SessionView>, kept: Seq<PersistedSessionView>) -> bool {
    &&& sessions.len() == kept.len()
    &&& forall|i: int| 0 <= i < kept.len() ==> (#[trigger] sessions[i]).id == kept[i].id
    &&& forall|i: int, j: int|
        0 <= i < j < kept.len() ==> (#[trigger] kept[i]).id != (#[trigger] kept[j]).id
}

proof fn lemma_unique_position(sessions: Seq<SessionView>, index: int)
    requires
        0 <= index < sessions.len(),
        forall|j: int| 0 <= j < index ==> (#[trigger] sessions[j]).id != sessions[index].id,
    ensures
        session::position_of(sessions, sessions[index].id) == Some(index),
{
    session::lemma_position(sessions, sessions[index].id, 0);
}

/// A session after the running command of its kept state was restarted.
spec fn restart_of(session: SessionView, kept: PersistedSessionView, now: u64) -> SessionView {
    if kept.running_command is Some { workspace::resumed(session, now) } else { session }
}

proof fn lemma_resumed(
    sessions: Seq<SessionView>,
    kept: Seq<PersistedSessionView>,
    count: int,
    now: u64,
)
    requires
        ids_match(sessions, kept),
        0 <= count <= kept.len(),
    ensures
        ({
            let after = workspace::resumed_upto(sessions, kept, count, now);
            &&& after.len() == sessions.len()
            &&& forall|i: int|
                0 <= i < count ==> #[trigger] after[i] == restart_of(sessions[i], kept[i], now)
            &&& forall|i: int| count <= i < sessions.len() ==> #[trigger] after[i] == sessions[i]
        }),
    decreases count,
{
    if count > 0 {
        let last = count - 1;
        lemma_resumed(sessions, kept, last, now);
        let before = workspace::resumed_upto(sessions, kept, last, now);
        assert(before[last].id == kept[last].id);
        assert forall|j: int| 0 <= j < last implies (#[trigger] before[j]).id
            != before[last].id by {
            assert(kept[j].id != kept[last].id);
            assert(before[j].id == sessions[j].id);
        }
        lemma_unique_position(before, last);
    }
}

proof fn lemma_restarts(
    sessions: Seq<SessionView>,
    kept: Seq<PersistedSessionView>,
    count: int,
    index: int,
)
    requires
        ids_match(sessions, kept),
        0 <= index < count <= kept.len(),
        kept[index].running_command is Some,
    ensures
        workspace::restarts_upto(sessions, kept, count).contains(
            (
                index as usize,
                vstd::utf8::encode_utf8(kept[index].running_command->0 + "\r"@),
            ),
        ),
    decreases count,
{
    let all = workspace::restarts_upto(sessions, kept, count);
    let wanted = (
        index as usize,
        vstd::utf8::encode_utf8(kept[index].running_command->0 + "\r"@),
    );
    let last = count - 1;
    if index < last {
        lemma_restarts(sessions, kept, last, index);
        let before = workspace::restarts_upto(sessions, kept, last);
        let k = choose|k: int| 0 <= k < before.len() && before[k] == wanted;
        assert(all[k] == wanted);
    } else {
        assert(sessions[last].id == kept[last].id);
        assert forall|j: int| 0 <= j < last implies (#[trigger] sessions[j]).id
            != sessions[last].id by {
            assert(kept[j].id != kept[last].id);
        }
        lemma_unique_position(sessions, last);
        assert(all[all.len() - 1] == wanted);
    }
}

proof fn lemma_bound_above(sessions: Seq<SessionView>, index: int)
    requires
        0 <= index < sessions.len(),
    ensures
        sessions[index].id < workspace::id_bound(sessions),
    decreases sessions.len(),
{
    if index < sessions.len() - 1 {
        assert(sessions.drop_last()[index] == sessions[index]);
        lemma_bound_above(sessions.drop_last(), index);
    }
}

/// The sessions are in the same groups.
spec fn same_groups(a: Seq<SessionView>, b: Seq<SessionView>) -> bool {
    &&& a.len() == b.len()
    &&& forall|i: int| 0 <= i < a.len() ==> (#[trigger] a[i]).group == b[i].group
}

proof fn lemma_same_groups_in_use(a: Seq<SessionView>, b: Seq<SessionView>, group: u64)
    requires
        same_groups(a, b),
    ensures
        groups::in_use(a, group) == groups::in_use(b, group),
{
    if groups::in_use(a, group) {
        let i = choose|i: int| 0 <= i < a.len() && (#[trigger] a[i]).group == Some(group);
        assert(b[i].group == Some(group));
    }
    if groups::in_use(b, group) {
        let i = choose|i: int| 0 <= i < b.len() && (#[trigger] b[i]).group == Some(group);
        assert(a[i].group == Some(group));
    }
}

/// A workspace that is started from its own snapshot has its sessions back in their order, with
/// their ids, given names and groups, the names and layouts of the groups in use, the active
/// session, and the numbers for new sessions and groups. A command that was running is shown again,
/// counts as running, and is sent to its session.
#[verifier::rlimit(40)]
pub proof fn a_kept_workspace_comes_back(
    app: AppView,
    area: Rect,
    host_terminal: Seq<char>,
    started: Seq<StartedView>,
    now: u64,
    later: u64,
)
    requires
        event_laws::is_sound(app),
        !app.clear_workspace_on_exit,
        started.len() == app.sessions.len(),
        later <= u64::MAX - workspace::RESTORE_GRACE,
    ensures
        ({
            let snapshot = workspace::snapshot_of(app, now);
            let kept = snapshot.sessions;
            let back = workspace::started_workspace(
                area,
                host_terminal,
                workspace::usable(Some(snapshot)),
                started,
                later,
            );
            &&& workspace::usable(Some(snapshot)) == Some(snapshot)
            &&& back.sessions.len() == app.sessions.len()
            &&& forall|i: int|
                0 <= i < app.sessions.len() ==> {
                    let session = #[trigger] back.sessions[i];
                    let own = app.sessions[i];
                    &&& session.id == own.id
                    &&& session.custom_name == own.custom_name
                    &&& session.group == own.group
                    &&& session.cwd == started[i].cwd
                    &&& workspace::running_command(own, now) is Some ==> session.last_command
                        == own.last_command && session::is_running(session, later)
                        && workspace::restarts_upto(
                        workspace::first_sessions(kept, started),
                        kept,
                        kept.len() as int,
                    ).contains(
                        (
                            i as usize,
                            vstd::utf8::encode_utf8(own.last_command->0 + "\r"@),
                        ),
                    )
                }
            &&& back.active == app.active
            &&& back.next_session_id == app.next_session_id
            &&& back.next_group_id == app.next_group_id
            &&& back.group_names == groups::cleaned(app).group_names
            &&& back.group_layouts == groups::cleaned(app).group_layouts
        }),
{
    let snapshot = workspace::snapshot_of(app, now);
    let kept = snapshot.sessions;
    let first = workspace::first_sessions(kept, started);
    let back = workspace::started_workspace(area, host_terminal, Some(snapshot), started, later);
    assert(ids_match(first, kept)) by {
        assert forall|i: int, j: int| 0 <= i < j < kept.len() implies (#[trigger] kept[i]).id != (
        #[trigger] kept[j]).id by {
            assert(app.sessions[i].id != app.sessions[j].id);
        }
    }
    lemma_resumed(first, kept, kept.len() as int, later);
    assert forall|i: int| 0 <= i < first.len() implies (#[trigger] first[i]).id
        < app.next_session_id by {
        assert(app.sessions[i].id < app.next_session_id);
    }
    workspace::lemma_bound_below(first, app.next_session_id);
    assert forall|j: int| 0 <= j < app.active implies (#[trigger] first[j]).id
        != first[app.active as int].id by {
        assert(app.sessions[j].id != app.sessions[app.active as int].id);
    }
    lemma_unique_position(first, app.active as int);
    assert forall|i: int| 0 <= i < app.sessions.len() && #[trigger] workspace::running_command(
        app.sessions[i],
        now,
    ) is Some implies workspace::restarts_upto(first, kept, kept.len() as int).contains(
        (i as usize, vstd::utf8::encode_utf8(app.sessions[i].last_command->0 + "\r"@)),
    ) by {
        assert(kept[i].running_command == workspace::running_command(app.sessions[i], now));
        lemma_restarts(first, kept, kept.len() as int, i);
    }
    assert(same_groups(first, app.sessions));
    assert forall|group: u64| groups::in_use(first, group) == groups::in_use(
        app.sessions,
        group,
    ) by {
        lemma_same_groups_in_use(first, app.sessions, group);
    }
    assert(back.group_names =~= groups::cleaned(app).group_names);
    assert(back.group_layouts =~= groups::cleaned(app).group_layouts);
    assert(back.active == app.active);
}

/// Every kept session is started in the directory that it was in.
pub proof fn kept_directories_are_used(app: AppView, area: Rect, now: u64, i: int)
    requires
        !app.clear_workspace_on_exit,
        0 <= i < app.sessions.len(),
    ensures
        ({
            let list = workspace::launches(Some(workspace::snapshot_of(app, now)), area);
            &&& list.len() == app.sessions.len()
            &&& list[i].id == app.sessions[i].id
            &&& list[i].cwd == Some(app.sessions[i].cwd)
        }),
{
}

/// After the last tab was closed, the next start has one fresh session.
pub proof fn a_closed_workspace_starts_afresh(
    app: AppView,
    area: Rect,
    host_terminal: Seq<char>,
    started: Seq<StartedView>,
    now: u64,
    later: u64,
)
    requires
        app.sessions.len() == 1,
        started.len() == 1,
    ensures
        ({
            let snapshot = workspace::snapshot_of(groups::closed(app, 0), now);
            let back = workspace::started_workspace(
                area,
                host_terminal,
                workspace::usable(Some(snapshot)),
                started,
                later,
            );
            &&& back.sessions == seq![
                session::fresh_session(1, started[0].cwd, started[0].shell_pid),
            ]
            &&& back.active == 0
            &&& back.next_session_id == 2
            &&& back.next_group_id == 1
            &&& back.group_names == Map::<u64, Seq<char>>::empty()
            &&& back == workspace::started_workspace(area, host_terminal, None, started, later)
        }),
{
    let snapshot = workspace::snapshot_of(groups::closed(app, 0), now);
    let back = workspace::started_workspace(area, host_terminal, Some(snapshot), started, later);
    let afresh = workspace::started_workspace(area, host_terminal, None, started, later);
    let first = workspace::first_sessions(snapshot.sessions, started);
    reveal_with_fuel(workspace::id_bound, 2);
    assert(first.drop_last() =~= Seq::empty());
    assert(workspace::id_bound(first) == 2);
    assert(session::position_of(first, 0) is None) by {
        reveal_with_fuel(session::position_from, 2);
    }
    assert(back.group_names =~= Map::empty());
    assert(back.group_layouts =~= Map::empty());
    assert(afresh.group_names =~= Map::empty());
    assert(afresh.group_layouts =~= Map::empty());
}

/// A workspace is sound from its start, if the ids in the snapshot differ from each other, and its
/// rectangles are valid.
#[verifier::rlimit(40)]
pub proof fn workspaces_start_sound(
    area: Rect,
    host_terminal: Seq<char>,
    snapshot: Option<workspace::WorkspaceSnapshotView>,
    started: Seq<StartedView>,
    now: u64,
)
    requires
        area.wf(),
        workspace::ids_in_range(workspace::kept_sessions(snapshot)),
        workspace::kept_sessions(snapshot).len() <= usize::MAX,
        forall|i: int, j: int|
            0 <= i < j < workspace::kept_sessions(snapshot).len() ==> (
            #[trigger] workspace::kept_sessions(snapshot)[i]).id != (
            #[trigger] workspace::kept_sessions(snapshot)[j]).id,
    ensures
        event_laws::is_sound(
            workspace::started_workspace(area, host_terminal, snapshot, started, now),
        ),
        workspace::started_workspace(area, host_terminal, snapshot, started, now).wf(),
{
    let kept = workspace::kept_sessions(snapshot);
    let first = workspace::first_sessions(kept, started);
    let app = workspace::started_workspace(area, host_terminal, snapshot, started, now);
    let opened = workspace::opened(area, host_terminal, snapshot, started);
    assert forall|i: int| 0 <= i < first.len() implies (#[trigger] first[i]).id
        < workspace::id_bound(first) by {
        lemma_bound_above(first, i);
    }
    assert forall|i: int| 0 <= i < first.len() implies (#[trigger] first[i]).id < u64::MAX by {
        if kept.len() > 0 {
            assert(kept[i].id < u64::MAX);
        }
    }
    workspace::lemma_bound_below(first, u64::MAX);
    if let Some(snapshot) = snapshot {
        session::lemma_position(first, snapshot.active_session, 0);
    }
    if kept.len() > 0 {
        assert(ids_match(first, kept));
        lemma_resumed(first, kept, kept.len() as int, now);
    }
    assert(opened.active < first.len());
    assert forall|i: int, j: int| 0 <= i < j < app.sessions.len() implies (
    #[trigger] app.sessions[i]).id != (#[trigger] app.sessions[j]).id by {
        assert(kept[i].id != kept[j].id);
        assert(first[i].id == kept[i].id && first[j].id == kept[j].id);
    }
    assert forall|i: int| 0 <= i < app.sessions.len() implies (#[trigger] app.sessions[i]).id
        < app.next_session_id by {
        assert(first[i].id < workspace::id_bound(first));
    }
}

/// A workspace that is started on a screen of fewer than 72 columns has its sidebar collapsed, and
/// one that is started on a wider screen has it expanded.
pub proof fn narrow_screens_start_with_the_sidebar_collapsed(
    area: Rect,
    host_terminal: Seq<char>,
    snapshot: Option<workspace::WorkspaceSnapshotView>,
    started: Seq<StartedView>,
    now: u64,
)
    ensures
        ({
            let app = workspace::started_workspace(area, host_terminal, snapshot, started, now);
            app.last_area == area && app.sidebar_collapsed == (area.width < 72)
        }),
{
}

/// What is kept of a session is what it is, and its command only while that is running.
pub proof fn kept_sessions_are_as_they_were(app: AppView, now: u64, i: int)
    requires
        !app.clear_workspace_on_exit,
        0 <= i < app.sessions.len(),
    ensures
        ({
            let kept = workspace::snapshot_of(app, now).sessions;
            let session = app.sessions[i];
            &&& kept.len() == app.sessions.len()
            &&& kept[i].id == session.id
            &&& kept[i].custom_name == session.custom_name
            &&& kept[i].last_command == session.last_command
            &&& kept[i].cwd == session.cwd
            &&& kept[i].group == session.group
            &&& session::is_running(session, now) ==> kept[i].running_command
                == session.last_command
            &&& !session::is_running(session, now) ==> kept[i].running_command is None
        }),
        app.active < app.sessions.len() ==> workspace::snapshot_of(app, now).active_session
            == app.sessions[app.active as int].id,
        workspace::snapshot_of(app, now).group_names == app.group_names,
        workspace::snapshot_of(app, now).group_layouts == app.group_layouts,
        workspace::snapshot_of(app, now).next_session_id == app.next_session_id,
        workspace::snapshot_of(app, now).next_group_id == app.next_group_id,
{
}

/// A snapshot is used if it is of the first version, and no other is.
pub proof fn only_the_first_version_is_used(snapshot: workspace::WorkspaceSnapshotView)
    ensures
        workspace::usable(Some(snapshot)) == if snapshot.version == 1 {
            Some(snapshot)
        } else {
            None
        },
{
}

/// A session that is brought back has its name, its group and its new shell. Its command is shown
/// again only if it was running; then it counts as running for three seconds in any case.
pub proof fn restored_sessions_are_as_they_were_kept(
    area: Rect,
    host_terminal: Seq<char>,
    snapshot: workspace::WorkspaceSnapshotView,
    started: Seq<StartedView>,
    now: u64,
    i: int,
)
    requires
        0 <= i < snapshot.sessions.len(),
        started.len() == snapshot.sessions.len(),
        now <= u64::MAX - 3_000_000_000,
        forall|j: int, k: int|
            0 <= j < k < snapshot.sessions.len() ==> (#[trigger] snapshot.sessions[j]).id != (
            #[trigger] snapshot.sessions[k]).id,
    ensures
        ({
            let app = workspace::started_workspace(
                area,
                host_terminal,
                Some(snapshot),
                started,
                now,
            );
            let session = app.sessions[i];
            let kept = snapshot.sessions[i];
            &&& app.sessions.len() == snapshot.sessions.len()
            &&& session.id == kept.id
            &&& session.custom_name == kept.custom_name
            &&& session.group == kept.group
            &&& session.cwd == started[i].cwd
            &&& session.shell_pid == started[i].shell_pid
            &&& session.input_line.len() == 0
            &&& kept.running_command is None ==> session.last_command is None && !session.pending
                && session.restore_grace_until is None
            &&& kept.running_command is Some ==> session.last_command == kept.last_command
                && session.pending && session.restore_grace_until == Some(
                (now + 3_000_000_000) as u64,
            )
        }),
{
    let kept = snapshot.sessions;
    let first = workspace::first_sessions(kept, started);
    assert(ids_match(first, kept));
    lemma_resumed(first, kept, kept.len() as int, now);
}

/// Nothing is sent at the start but the commands that were running, each with a carriage return to
/// the session that it was running in.
pub proof fn only_running_commands_are_sent(
    sessions: Seq<SessionView>,
    kept: Seq<PersistedSessionView>,
    count: int,
    w: int,
) -> (i: int)
    requires
        0 <= count <= kept.len(),
        sessions.len() <= usize::MAX,
        0 <= w < workspace::restarts_upto(sessions, kept, count).len(),
    ensures
        0 <= i < count,
        ({
            let sent = workspace::restarts_upto(sessions, kept, count)[w];
            &&& kept[i].running_command matches Some(command) && sent.1
                == vstd::utf8::encode_utf8(command.push('\r'))
            &&& sent.0 < sessions.len()
            &&& sessions[sent.0 as int].id == kept[i].id
        }),
    decreases count,
{
    let before = workspace::restarts_upto(sessions, kept, count - 1);
    if w < before.len() {
        let i = only_running_commands_are_sent(sessions, kept, count - 1, w);
        assert(workspace::restarts_upto(sessions, kept, count)[w] == before[w]);
        i
    } else {
        session::lemma_position(sessions, kept[count - 1].id, 0);
        reveal_strlit("\r");
        let command = kept[count - 1].running_command->0;
        assert(command + "\r"@ =~= command.push('\r'));
        count - 1
    }
}

/// The shells that are started with the workspace have the size of the terminal beside the sidebar,
/// which has 29 columns, or 4 on a screen of fewer than 72, but at least two rows and columns.
pub proof fn shells_start_with_the_size_of_the_terminal(
    snapshot: Option<workspace::WorkspaceSnapshotView>,
    area: Rect,
    i: int,
)
    requires
        area.wf(),
        0 <= i < workspace::launches(snapshot, area).len(),
    ensures
        ({
            let shell = workspace::launches(snapshot, area)[i];
            let bar: int = if area.width < 72 { 4 } else { 29 };
            &&& area.height >= 2 ==> shell.rows == area.height
            &&& area.height < 2 ==> shell.rows == 2
            &&& area.width >= bar + 2 ==> shell.cols == area.width - bar
            &&& area.width < bar + 2 ==> shell.cols == 2
        }),
{
}

/// Without a snapshot, or with one without sessions, one shell is started, with the id 1 and in the
/// directory of the program. Otherwise one is started for each kept session.
pub proof fn a_first_start_has_one_shell(
    snapshot: Option<workspace::WorkspaceSnapshotView>,
    area: Rect,
)
    ensures
        ({
            let list = workspace::launches(snapshot, area);
            let kept = snapshot is Some && snapshot->0.sessions.len() > 0;
            &&& !kept ==> list.len() == 1 && list[0].id == 1 && list[0].cwd is None
            &&& kept ==> list.len() == snapshot->0.sessions.len()
        }),
{
}

/// The number for the next session is above all ids, and not below the one that was kept.
pub proof fn new_ids_are_above_the_kept_ones(
    area: Rect,
    host_terminal: Seq<char>,
    snapshot: workspace::WorkspaceSnapshotView,
    started: Seq<StartedView>,
    now: u64,
    i: int,
)
    requires
        0 <= i < snapshot.sessions.len(),
        started.len() == snapshot.sessions.len(),
        workspace::ids_in_range(snapshot.sessions),
    ensures
        ({
            let app = workspace::started_workspace(
                area,
                host_terminal,
                Some(snapshot),
                started,
                now,
            );
            &&& snapshot.sessions[i].id < app.next_session_id
            &&& snapshot.next_session_id <= app.next_session_id
            &&& app.next_group_id == snapshot.next_group_id
        }),
{
    let kept = snapshot.sessions;
    let first = workspace::first_sessions(kept, started);
    lemma_bound_above(first, i);
    assert forall|j: int| 0 <= j < first.len() implies (#[trigger] first[j]).id < u64::MAX by {
        assert(kept[j].id < u64::MAX);
    }
    workspace::lemma_bound_below(first, u64::MAX);
}

/// The active session is the one that was active, or the first one if that does not come back.
pub proof fn the_active_session_comes_back(
    area: Rect,
    host_terminal: Seq<char>,
    snapshot: workspace::WorkspaceSnapshotView,
    started: Seq<StartedView>,
    now: u64,
    i: int,
)
    requires
        0 <= i < snapshot.sessions.len() <= usize::MAX,
        started.len() == snapshot.sessions.len(),
        forall|j: int, k: int|
            0 <= j < k < snapshot.sessions.len() ==> (#[trigger] snapshot.sessions[j]).id != (
            #[trigger] snapshot.sessions[k]).id,
    ensures
        ({
            let app = workspace::started_workspace(
                area,
                host_terminal,
                Some(snapshot),
                started,
                now,
            );
            &&& snapshot.sessions[i].id == snapshot.active_session ==> app.active == i
            &&& (forall|j: int|
                0 <= j < snapshot.sessions.len() ==> (#[trigger] snapshot.sessions[j]).id
                    != snapshot.active_session) ==> app.active == 0
        }),
{
    let kept = snapshot.sessions;
    let first = workspace::first_sessions(kept, started);
    session::lemma_position(first, snapshot.active_session, 0);
    assert forall|j: int| 0 <= j < first.len() implies (#[trigger] first[j]).id == kept[j].id by {}
    if kept[i].id == snapshot.active_session {
        assert(first[i].id == kept[i].id);
        let found = session::position_of(first, snapshot.active_session)->0;
        if found < i {
            assert(kept[found].id != kept[i].id);
        }
    } else if forall|j: int|
        0 <= j < kept.len() ==> (#[trigger] kept[j]).id != snapshot.active_session {
        if let Some(found) = session::position_of(first, snapshot.active_session) {
            assert(kept[found].id != snapshot.active_session);
        }
    }
}

/// Taking a snapshot changes nothing but that the ends of commands are noted.
pub proof fn snapshots_change_nothing_else(app: AppView, now: u64, i: int)
    requires
        0 <= i < app.sessions.len(),
    ensures
        ({
            let after = workspace::snapshot_taken(app, now);
            &&& after == (AppView { sessions: after.sessions, ..app })
            &&& after.sessions.len() == app.sessions.len()
            &&& after.sessions[i] == (SessionView {
                pending: after.sessions[i].pending,
                ..app.sessions[i]
            })
            &&& after.sessions[i].pending ==> app.sessions[i].pending
        }),
{
}

} // verus!
