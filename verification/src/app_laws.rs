//! What is shown of the sessions, and what is kept of the groups.

use crate::app;
use crate::app::AppView;
use crate::geometry::Rect;
use crate::groups;
use crate::layout;
use crate::layout::{PaneLayout, SplitAxis};
use crate::layout_laws;
use crate::session::SessionView;
use crate::sidebar;
use crate::split_laws;
use crate::tabs;
use crate::ui;
use vstd::prelude::*;

verus! {

/// A session without a group is shown alone in the whole terminal.
pub proof fn a_single_tab_fills_the_terminal(app: AppView, terminal: Rect)
    requires
        app.active < app.sessions.len(),
        app.sessions[app.active as int].group is None,
    ensures
        app::panes(app, terminal) == seq![(app.active, terminal)],
        app::dividers(app, terminal).len() == 0,
        app::panes_fit(app, terminal),
{
}

/// The panes of a group stand where its layout puts them. A group without a layout of its own shows
/// its members side by side, in equal parts.
pub proof fn groups_are_shown_by_their_layout(app: AppView, group: u64, terminal: Rect)
    requires
        app.active < app.sessions.len(),
        app.sessions[app.active as int].group == Some(group),
    ensures
        app.group_layouts.contains_key(group) ==> app::panes(app, terminal) == layout::panes_among(
            layout::leaf_areas(app.group_layouts[group], terminal),
            app.sessions,
        ) && app::dividers(app, terminal) == layout::dividers_of(
            app.group_layouts[group],
            terminal,
            group,
            Seq::empty(),
        ),
        !app.group_layouts.contains_key(group) ==> ({
            let shown = app::layout_of(app, group);
            &&& app::panes(app, terminal) == layout::panes_among(
                layout::leaf_areas(shown, terminal),
                app.sessions,
            )
            &&& layout::leaves(shown) == layout::members(app.sessions, group)
            &&& layout_laws::runs_along(shown, SplitAxis::Horizontal)
            &&& split_laws::is_even(shown)
        }),
{
    let members = layout::members(app.sessions, group);
    lemma_has_member(app.sessions, group, app.active as int);
    layout_laws::balanced_layout_holds_all_panes(members, SplitAxis::Horizontal);
    split_laws::balanced_layouts_are_even(members, SplitAxis::Horizontal);
}

proof fn lemma_has_member(sessions: Seq<SessionView>, group: u64, i: int)
    requires
        0 <= i < sessions.len(),
        sessions[i].group == Some(group),
    ensures
        layout::members(sessions, group).len() > 0,
    decreases sessions.len(),
{
    if i < sessions.len() - 1 {
        assert(sessions.drop_last()[i] == sessions[i]);
        lemma_has_member(sessions.drop_last(), group, i);
    }
}

/// The names and layouts of groups in use are kept, and those of other groups are not. Nothing else
/// changes.
pub proof fn groups_in_use_are_kept(app: AppView, group: u64)
    ensures
        ({
            let after = groups::cleaned(app);
            let used = exists|i: int|
                0 <= i < app.sessions.len() && (#[trigger] app.sessions[i]).group == Some(group);
            &&& after == (AppView {
                group_names: after.group_names,
                group_layouts: after.group_layouts,
                ..app
            })
            &&& used && app.group_names.contains_key(group) ==> after.group_names.contains_key(
                group,
            ) && after.group_names[group] == app.group_names[group]
            &&& used && app.group_layouts.contains_key(group) ==> after.group_layouts.contains_key(
                group,
            ) && after.group_layouts[group] == app.group_layouts[group]
            &&& !used || !app.group_names.contains_key(group) ==> !after.group_names.contains_key(
                group,
            )
            &&& !used || !app.group_layouts.contains_key(group)
                ==> !after.group_layouts.contains_key(group)
        }),
{
}

/// A new size of the screen is noted. It changes nothing else but whether the sidebar is collapsed.
pub proof fn the_size_of_the_screen_is_noted(app: AppView, area: Rect)
    ensures
        app::sized(app, area) == (AppView {
            last_area: area,
            sidebar_collapsed: app.manual_collapse || area.width < 72,
            ..app
        }),
{
}

/// The coordinates of a layout stay within their range on every screen that leaves a cell for each
/// pane beyond its edges.
pub proof fn layouts_fit_on_the_screen(layout: PaneLayout, area: Rect)
    requires
        area.x + area.width + layout::leaves(layout).len() <= u16::MAX,
        area.y + area.height + layout::leaves(layout).len() <= u16::MAX,
    ensures
        layout::fits(layout, area),
    decreases layout,
{
    if let PaneLayout::Split { axis, ratio, first, second } = layout {
        lemma_has_leaves(*first);
        lemma_has_leaves(*second);
        layouts_fit_on_the_screen(*first, layout::first_area(axis, ratio, area));
        layouts_fit_on_the_screen(*second, layout::second_area(axis, ratio, area));
    }
}

proof fn lemma_has_leaves(layout: PaneLayout)
    ensures
        layout::leaves(layout).len() > 0,
    decreases layout,
{
    if let PaneLayout::Split { axis, ratio, first, second } = layout {
        lemma_has_leaves(*first);
    }
}

/// On a screen of any usual size, everything can be drawn.
pub proof fn everything_can_be_drawn(app: AppView, area: Rect)
    requires
        area.x + area.width <= 30_000,
        area.y + area.height <= 30_000,
        app::group_at(app.sessions, app.active as int) matches Some(group) ==> layout::leaves(
            app::layout_of(app, group),
        ).len() <= 30_000,
    ensures
        ui::can_draw(app, area),
{
    let terminal = ui::terminal_of(app, area);
    if let Some(group) = app::group_at(app.sessions, app.active as int) {
        layouts_fit_on_the_screen(app::layout_of(app, group), terminal);
    }
}

/// In the collapsed sidebar the active tab and the other tabs of its group stand out by their
/// background, and the active one by bold type. No other tab has a background.
pub proof fn the_active_tab_stands_out(app: AppView, index: int)
    requires
        0 <= index < app.sessions.len(),
        app.active < app.sessions.len(),
    ensures
        ({
            let style = sidebar::collapsed_style(app, index);
            let active = sidebar::collapsed_style(app, app.active as int);
            let group = app.sessions[app.active as int].group;
            let together = group is Some && app.sessions[index].group == group;
            &&& style.bold == (index == app.active)
            &&& (style.bg is Some) == (index == app.active || together)
            &&& index != app.active ==> style.bg != active.bg
        }),
{
}

/// The mark before the directory of a tab joins it to the next tab of its group: a line goes on to
/// it, and ends at the last tab of the group. A tab without a group has no mark.
pub proof fn marks_join_the_tabs_of_a_group(
    sessions: Seq<SessionView>,
    k: int,
    bar: Rect,
    home: Option<Seq<u8>>,
)
    requires
        0 <= k < tabs::order(sessions).len(),
        forall|i: int|
            0 <= i < tabs::order(sessions).len() ==> #[trigger] tabs::order(sessions)[i]
                < sessions.len(),
    ensures
        ({
            let order = tabs::order(sessions);
            let session = sessions[order[k] as int];
            let more = sidebar::continues(sessions, k);
            let mark = sidebar::directory_line(session, more, bar, home)[0].text;
            let next = k + 1 < order.len() && session.group is Some
                && sessions[order[k + 1] as int].group == session.group;
            &&& session.group is None ==> mark == "   "@
            &&& next ==> mark == " │   "@
            &&& session.group is Some && !next ==> mark == " └   "@
        }),
{
}

} // verus!
