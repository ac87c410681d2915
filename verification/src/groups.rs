//! Pane groups: which sessions are in them, and how their layouts follow.

use crate::app;
use crate::app::{Action, ActionView, App, AppView, InputMode, InputModeView};
use crate::layout;
use crate::layout::{
    insert_layout_leaf, layout_for_group, remove_layout_leaf, PaneLayout, SplitAxis,
};
use crate::session;
use crate::session::{session_position, Session, SessionView};
use std::collections::HashMap;
use vstd::prelude::*;

verus! {

/// A session is in the group.
pub open spec fn in_use(sessions: Seq<SessionView>, group: u64) -> bool {
    exists|i: int| 0 <= i < sessions.len() && (#[trigger] sessions[i]).group == Some(group)
}

/// The part of a map that belongs to groups in use.
pub open spec fn kept<T>(map: Map<u64, T>, sessions: Seq<SessionView>) -> Map<u64, T> {
    Map::new(|group: u64| map.contains_key(group) && in_use(sessions, group), |group: u64|
        map[group])
}

/// The workspace without names and layouts of groups that no session is in.
pub open spec fn cleaned(app: AppView) -> AppView {
    AppView {
        group_names: kept(app.group_names, app.sessions),
        group_layouts: kept(app.group_layouts, app.sessions),
        ..app
    }
}

/// The sessions with one of them moved to a group, or out of its group.
pub open spec fn regrouped(sessions: Seq<SessionView>, index: int, group: Option<u64>) -> Seq<
    SessionView,
> {
    sessions.update(index, SessionView { group, ..sessions[index] })
}

/// The layouts without the leaf of a pane in the layout of a group. A layout that has no other
/// leaf goes.
pub open spec fn leaf_dropped(
    layouts: Map<u64, PaneLayout>,
    group: Option<u64>,
    pane: u64,
) -> Map<u64, PaneLayout> {
    match group {
        Some(group) => if layouts.contains_key(group) {
            match layout::without(layouts[group], pane) {
                Some(rest) => layouts.insert(group, rest),
                None => layouts.remove(group),
            }
        } else {
            layouts
        },
        None => layouts,
    }
}

/// The workspace after a session was closed. The last session stays, and the program ends with an
/// empty workspace.
pub open spec fn closed(app: AppView, index: int) -> AppView {
    if index >= app.sessions.len() {
        app
    } else if app.sessions.len() == 1 {
        AppView { exit_requested: true, clear_workspace_on_exit: true, ..app }
    } else {
        let last = app.sessions.len() - 2;
        app::refitted(
            cleaned(
                AppView {
                    sessions: app.sessions.remove(index),
                    group_layouts: leaf_dropped(
                        app.group_layouts,
                        app.sessions[index].group,
                        app.sessions[index].id,
                    ),
                    active: if app.active <= last { app.active } else { last as usize },
                    ..app
                },
            ),
        )
    }
}

/// What is left to be done when a session is closed.
pub open spec fn closing(app: AppView, index: int) -> ActionView {
    if index >= app.sessions.len() || app.sessions.len() == 1 {
        ActionView::Idle
    } else {
        ActionView::Close { index: index as usize }
    }
}

/// The sessions after a look at whether a command is running in one of them.
pub open spec fn looked_at(sessions: Seq<SessionView>, index: int, now: u64) -> Seq<SessionView> {
    sessions.update(index, session::settled(sessions[index], now))
}

/// The close of a session has to be confirmed: it is the last one, or a command runs in it.
pub open spec fn must_confirm(app: AppView, index: int, now: u64) -> bool {
    app.sessions.len() == 1 || session::is_running(app.sessions[index], now)
}

/// The workspace after the user asked to close a session.
pub open spec fn close_requested(app: AppView, index: int, now: u64) -> AppView {
    if index >= app.sessions.len() {
        app
    } else {
        let seen = if app.sessions.len() == 1 {
            app
        } else {
            AppView { sessions: looked_at(app.sessions, index, now), ..app }
        };
        if must_confirm(app, index, now) {
            AppView {
                input_mode: InputModeView::ConfirmClose { session_id: app.sessions[index].id },
                ..seen
            }
        } else {
            closed(seen, index)
        }
    }
}

/// What is left to be done after the user asked to close a session.
pub open spec fn close_request(app: AppView, index: int, now: u64) -> ActionView {
    if index >= app.sessions.len() || must_confirm(app, index, now) {
        ActionView::Idle
    } else {
        ActionView::Close { index: index as usize }
    }
}

/// The layout with a pane beside its target. Where the target is missing, the pane is put beside
/// the whole layout.
pub open spec fn beside(layout: PaneLayout, target: u64, pane: u64, axis: SplitAxis) -> PaneLayout {
    if layout::leaves(layout).contains(target) {
        layout::with_pane(layout, target, pane, axis)
    } else {
        PaneLayout::Split {
            axis,
            ratio: 50,
            first: Box::new(layout),
            second: Box::new(PaneLayout::Leaf(pane)),
        }
    }
}

/// The workspace with a pane moved into a group, beside a target, which becomes the active pane.
pub open spec fn placed(
    app: AppView,
    group: u64,
    target: u64,
    pane: u64,
    axis: SplitAxis,
) -> AppView {
    match session::position_of(app.sessions, pane) {
        Some(index) => if target == pane {
            app
        } else {
            let old_group = app.sessions[index].group;
            let layouts = leaf_dropped(app.group_layouts, old_group, pane);
            let others = regrouped(app.sessions, index, None);
            let apart = AppView { sessions: others, group_layouts: layouts, ..app };
            let layout = beside(app::layout_of(apart, group), target, pane, axis);
            let moved = AppView {
                sessions: regrouped(app.sessions, index, Some(group)),
                group_layouts: layouts.insert(group, layout),
                ..app
            };
            let tidy = if old_group != Some(group) {
                cleaned(moved)
            } else {
                moved
            };
            app::refitted(
                match session::position_of(tidy.sessions, target) {
                    Some(i) => AppView { active: i as usize, ..tidy },
                    None => tidy,
                },
            )
        },
        None => app,
    }
}

/// What is left to be done when a pane is moved beside a target.
pub open spec fn placing(app: AppView, target: u64, pane: u64) -> ActionView {
    if target == pane || session::position_of(app.sessions, pane) is None {
        ActionView::Idle
    } else {
        ActionView::Resize
    }
}

/// The workspace with a new group that holds only the session at `index`.
pub open spec fn with_group(app: AppView, index: int) -> AppView {
    AppView {
        next_group_id: (app.next_group_id + 1) as u64,
        sessions: regrouped(app.sessions, index, Some(app.next_group_id)),
        group_layouts: app.group_layouts.insert(
            app.next_group_id,
            PaneLayout::Leaf(app.sessions[index].id),
        ),
        ..app
    }
}

/// There is a number left for the group that placing a pane beside a target creates, if it creates
/// one.
pub open spec fn can_place(app: AppView, target: u64) -> bool {
    session::position_of(app.sessions, target) matches Some(index) && app.sessions[index].group is None
        ==> app.next_group_id < u64::MAX
}

/// The workspace with a pane placed beside a target, in the group of the target or in a new one.
pub open spec fn placed_relative(
    app: AppView,
    target: u64,
    pane: u64,
    axis: SplitAxis,
) -> AppView {
    match session::position_of(app.sessions, target) {
        Some(index) => match app.sessions[index].group {
            Some(group) => placed(app, group, target, pane, axis),
            None => placed(with_group(app, index), app.next_group_id, target, pane, axis),
        },
        None => app,
    }
}

/// What is left to be done when a pane is placed beside a target.
pub open spec fn placing_relative(app: AppView, target: u64, pane: u64) -> ActionView {
    if session::position_of(app.sessions, target) is None {
        ActionView::Idle
    } else {
        placing(app, target, pane)
    }
}

/// One of the first `count` sessions is in the group.
spec fn used_before(sessions: Seq<SessionView>, count: int, group: u64) -> bool {
    exists|i: int| 0 <= i < count && (#[trigger] sessions[i]).group == Some(group)
}

/// Takes the entries of groups in use out of a map.
fn keep_used<T>(map: HashMap<u64, T>, sessions: &Vec<Session>) -> (r: HashMap<u64, T>)
    ensures
        r@ == kept(map@, session::session_views(sessions@)),
{
    let ghost all = map@;
    let ghost views = session::session_views(sessions@);
    let mut rest = map;
    let mut r: HashMap<u64, T> = HashMap::new();
    let mut i: usize = 0;
    while i < sessions.len()
        invariant
            i <= sessions@.len(),
            views == session::session_views(sessions@),
            forall|group: u64| #[trigger]
                r@.contains_key(group) <==> all.contains_key(group) && used_before(
                    views,
                    i as int,
                    group,
                ),
            forall|group: u64| #[trigger]
                rest@.contains_key(group) <==> all.contains_key(group) && !used_before(
                    views,
                    i as int,
                    group,
                ),
            forall|group: u64| #[trigger] r@.contains_key(group) ==> r@[group] == all[group],
            forall|group: u64| #[trigger]
                rest@.contains_key(group) ==> rest@[group] == all[group],
        decreases sessions@.len() - i,
    {
        let ghost kept_before = r@;
        let ghost rest_before = rest@;
        assert(views[i as int].group == sessions@[i as int].group);
        if let Some(group) = sessions[i].group {
            if let Some(value) = rest.remove(&group) {
                r.insert(group, value);
            }
        }
        proof {
            assert forall|group: u64|
                #![trigger r@.contains_key(group)]
                #![trigger rest@.contains_key(group)]
                {
                    &&& r@.contains_key(group) <==> all.contains_key(group) && used_before(
                        views,
                        i + 1,
                        group,
                    )
                    &&& rest@.contains_key(group) <==> all.contains_key(group) && !used_before(
                        views,
                        i + 1,
                        group,
                    )
                    &&& r@.contains_key(group) ==> r@[group] == all[group]
                    &&& rest@.contains_key(group) ==> rest@[group] == all[group]
                } by {
                assert(kept_before.contains_key(group) || !kept_before.contains_key(group));
                assert(rest_before.contains_key(group) || !rest_before.contains_key(group));
                assert(used_before(views, i + 1, group) == (used_before(views, i as int, group)
                    || views[i as int].group == Some(group)));
            }
        }
        i += 1;
    }
    proof {
        assert forall|group: u64| used_before(views, i as int, group) == in_use(views, group) by {}
        assert forall|group: u64| #[trigger]
            r@.contains_key(group) == kept(all, views).contains_key(group) by {}
        assert(r@ =~= kept(all, views));
    }
    r
}

impl App {
    /// Forgets names and layouts of groups that no session is in.
    pub fn cleanup_groups(&mut self)
        ensures
            final(self)@ == cleaned(old(self)@),
    {
        let ghost before = self@;
        let mut names: HashMap<u64, String> = HashMap::new();
        std::mem::swap(&mut names, &mut self.group_names);
        self.group_names = keep_used(names, &self.sessions);
        let mut layouts: HashMap<u64, PaneLayout> = HashMap::new();
        std::mem::swap(&mut layouts, &mut self.group_layouts);
        self.group_layouts = keep_used(layouts, &self.sessions);
        assert(self@.group_names == kept(before.group_names, before.sessions));
        assert(self@.group_layouts == kept(before.group_layouts, before.sessions));
    }

    pub(crate) fn drop_leaf(&mut self, group: Option<u64>, pane: u64)
        ensures
            final(self)@ == (AppView {
                group_layouts: leaf_dropped(old(self)@.group_layouts, group, pane),
                ..old(self)@
            }),
    {
        let ghost before = self@;
        if let Some(group) = group {
            if let Some(layout) = self.group_layouts.remove(&group) {
                if let Some(rest) = remove_layout_leaf(layout, pane) {
                    self.group_layouts.insert(group, rest);
                }
            }
        }
        assert(self@.group_layouts == leaf_dropped(before.group_layouts, group, pane));
    }

    pub(crate) fn set_group(&mut self, index: usize, group: Option<u64>)
        requires
            index < old(self)@.sessions.len(),
        ensures
            final(self)@ == (AppView {
                sessions: regrouped(old(self)@.sessions, index as int, group),
                ..old(self)@
            }),
    {
        let ghost before = self@;
        self.sessions[index].group = group;
        assert(self@.sessions == regrouped(before.sessions, index as int, group));
    }

    /// Closes the session at a place. The last session stays: then the program ends.
    pub fn close_session(&mut self, index: usize) -> (r: Action)
        ensures
            final(self)@ == closed(old(self)@, index as int),
            r@ == closing(old(self)@, index as int),
    {
        if index >= self.sessions.len() {
            return Action::Idle;
        }
        if self.sessions.len() == 1 {
            self.exit_requested = true;
            self.clear_workspace_on_exit = true;
            return Action::Idle;
        }
        let ghost before = self@;
        let id = self.sessions[index].id;
        let group = self.sessions[index].group;
        self.sessions.remove(index);
        assert(self@.sessions == before.sessions.remove(index as int));
        self.drop_leaf(group, id);
        let last: usize = self.sessions.len() - 1;
        if self.active > last {
            self.active = last;
        }
        self.cleanup_groups();
        self.refit();
        Action::Close { index }
    }

    /// Closes the session at a place, or asks for confirmation where it is the last one or a
    /// command runs in it.
    pub fn request_close(&mut self, index: usize, now: u64) -> (r: Action)
        ensures
            final(self)@ == close_requested(old(self)@, index as int, now),
            r@ == close_request(old(self)@, index as int, now),
    {
        if index >= self.sessions.len() {
            return Action::Idle;
        }
        let ghost before = self@;
        let id = self.sessions[index].id;
        let confirm = if self.sessions.len() == 1 {
            true
        } else {
            let running = self.sessions[index].is_pending(now);
            assert(self@.sessions == looked_at(before.sessions, index as int, now));
            running
        };
        if confirm {
            self.input_mode = InputMode::ConfirmClose { session_id: id };
            Action::Idle
        } else {
            self.close_session(index)
        }
    }

    /// Moves a pane into a group, beside a target.
    pub fn place_pane_relative(
        &mut self,
        group: u64,
        target: u64,
        pane: u64,
        axis: SplitAxis,
    ) -> (r: Action)
        ensures
            final(self)@ == placed(old(self)@, group, target, pane, axis),
            r@ == placing(old(self)@, target, pane),
    {
        if target == pane {
            return Action::Idle;
        }
        let ghost before = self@;
        let index = match session_position(self.sessions.as_slice(), pane) {
            Some(index) => index,
            None => return Action::Idle,
        };
        let old_group = self.sessions[index].group;
        self.drop_leaf(old_group, pane);
        self.set_group(index, None);
        let ghost layouts = self@.group_layouts;
        let ghost apart = self@;
        let mut layout = match self.group_layouts.remove(&group) {
            Some(layout) => layout,
            None => layout_for_group(self.sessions.as_slice(), group),
        };
        assert(layout == app::layout_of(apart, group));
        let ghost base = layout;
        if !insert_layout_leaf(&mut layout, target, pane, axis) {
            proof {
                layout::lemma_with_pane_absent(base, target, pane, axis);
            }
            layout =
            PaneLayout::Split {
                axis,
                ratio: 50,
                first: Box::new(layout),
                second: Box::new(PaneLayout::Leaf(pane)),
            };
        }
        assert(layout == beside(base, target, pane, axis));
        self.set_group(index, Some(group));
        self.group_layouts.insert(group, layout);
        assert(self@.group_layouts == layouts.insert(group, layout));
        assert(self@.sessions == regrouped(before.sessions, index as int, Some(group)));
        if old_group != Some(group) {
            self.cleanup_groups();
        }
        if let Some(i) = session_position(self.sessions.as_slice(), target) {
            self.active = i;
        }
        self.refit();
        Action::Resize
    }

    /// Places a pane beside a target, in the group of the target. Where the target has no group,
    /// it gets a new one.
    pub fn place_relative_to_current(&mut self, target: u64, pane: u64, axis: SplitAxis) -> (r:
        Action)
        requires
            can_place(old(self)@, target),
        ensures
            final(self)@ == placed_relative(old(self)@, target, pane, axis),
            r@ == placing_relative(old(self)@, target, pane),
    {
        let ghost before = self@;
        let index = match session_position(self.sessions.as_slice(), target) {
            Some(index) => index,
            None => return Action::Idle,
        };
        let group = match self.sessions[index].group {
            Some(group) => group,
            None => {
                let group = self.next_group_id;
                self.next_group_id = group + 1;
                self.set_group(index, Some(group));
                self.group_layouts.insert(group, PaneLayout::Leaf(target));
                assert(self@ == with_group(before, index as int));
                proof {
                    session::lemma_same_ids(self@.sessions, before.sessions, pane, 0);
                }
                group
            },
        };
        self.place_pane_relative(group, target, pane, axis)
    }
}

} // verus!
