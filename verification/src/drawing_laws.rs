//! What holds of the drawn screen.

use crate::app;
use crate::app::AppView;
use crate::event_laws;
use crate::geometry;
use crate::geometry::Rect;
use crate::layout;
use crate::layout::PaneLayout;
use crate::layout_laws;
use crate::mouse;
use crate::session::SessionView;
use crate::sidebar;
use crate::split_laws;
use crate::tab_laws;
use crate::tabs;
use crate::ui;
use vstd::prelude::*;

verus! {

/// A tab ends above the place of every later one.
proof fn lemma_rows_grow(sessions: Seq<SessionView>, sidebar: Rect, j: int, k: int)
    requires
        0 <= j < k,
    ensures
        sidebar::tab_row(sessions, sidebar, j) + 2 <= sidebar::top_row(sessions, sidebar, k),
    decreases k - j,
{
    if j < k - 1 {
        lemma_rows_grow(sessions, sidebar, j, k - 1);
    }
}

pub(crate) proof fn lemma_top_row(sessions: Seq<SessionView>, sidebar: Rect, k: int)
    ensures
        sidebar.y + 2 <= sidebar::top_row(sessions, sidebar, k),
    decreases k,
{
    if k > 0 {
        lemma_top_row(sessions, sidebar, k - 1);
    }
}

pub(crate) proof fn lemma_shown(sessions: Seq<SessionView>, sidebar: Rect, from: int)
    requires
        0 <= from <= tabs::order(sessions).len(),
    ensures
        from <= sidebar::shown_from(sessions, sidebar, from) <= tabs::order(sessions).len(),
        forall|k: int|
            from <= k < sidebar::shown_from(sessions, sidebar, from)
                ==> #[trigger] sidebar::has_room(sessions, sidebar, k),
    decreases tabs::order(sessions).len() - from,
{
    if from < tabs::order(sessions).len() && sidebar::has_room(sessions, sidebar, from) {
        lemma_shown(sessions, sidebar, from + 1);
    }
}

/// Looking at the sessions while they are drawn keeps the workspace sound.
pub proof fn drawing_keeps_the_workspace_sound(app: AppView, area: Rect, now: u64)
    requires
        event_laws::is_sound(app),
    ensures
        event_laws::is_sound(ui::after_drawing(app, area, now)),
{
    let after = ui::after_drawing(app, area, now);
    assert forall|i: int| 0 <= i < after.sessions.len() implies (#[trigger] after.sessions[i]).id
        == app.sessions[i].id by {}
    assert forall|i: int, j: int| 0 <= i < j < after.sessions.len() implies (
    #[trigger] after.sessions[i]).id != (#[trigger] after.sessions[j]).id by {
        assert(app.sessions[i].id != app.sessions[j].id);
    }
}

/// Every drawn tab and every drawn pane belongs to a session.
pub proof fn drawn_parts_belong_to_sessions(app: AppView, area: Rect, now: u64)
    requires
        app.sessions.len() <= usize::MAX,
    ensures
        event_laws::hits_are_current(ui::after_drawing(app, area, now)),
{
    let after = ui::after_drawing(app, area, now);
    let bar = ui::sidebar_of(app, area);
    let terminal = ui::terminal_of(app, area);
    tab_laws::every_session_has_one_row(app.sessions);
    lemma_shown(app.sessions, bar, 0);
    assert forall|i: int| 0 <= i < after.hits.tabs.len() implies (
    #[trigger] after.hits.tabs[i]).index < after.sessions.len() by {
        assert(after.hits.tabs[i].index == tabs::order(app.sessions)[i]);
    }
    assert forall|i: int| 0 <= i < after.hits.panes.len() implies (#[trigger] after.hits.panes[i]).0
        < after.sessions.len() by {
        if let Some(group) = app::group_at(app.sessions, app.active as int) {
            layout_laws::panes_belong_to_sessions(
                layout::leaf_areas(app::layout_of(app, group), terminal),
                app.sessions,
                i,
            );
        }
    }
}

/// A cell of a drawn tab is that of this tab alone: a click on it selects the session that the tab
/// shows.
#[verifier::rlimit(40)]
pub proof fn clicks_select_the_drawn_tab(app: AppView, area: Rect, now: u64, k: int, x: int, y: int)
    requires
        area.wf(),
        app.sessions.len() <= usize::MAX,
        0 <= k < ui::after_drawing(app, area, now).hits.tabs.len(),
        ui::after_drawing(app, area, now).hits.tabs[k].body.holds(x, y),
    ensures
        ({
            let after = ui::after_drawing(app, area, now);
            &&& mouse::tab_at(after, x, y) == Some(after.hits.tabs[k].index)
            &&& after.hits.tabs[k].index == tabs::order(app.sessions)[k]
        }),
{
    let after = ui::after_drawing(app, area, now);
    let hits = after.hits.tabs;
    let areas = mouse::body_areas(hits);
    let bar = ui::sidebar_of(app, area);
    lemma_shown(app.sessions, bar, 0);
    assert forall|j: int| 0 <= j < k implies !(#[trigger] areas[j]).holds(x, y) by {
        assert(areas[k] == hits[k].body);
        assert(areas[j] == hits[j].body);
        assert(bar.wf());
        if app.sidebar_collapsed {
            assert(hits == sidebar::collapsed_tabs(ui::ticked(app), bar));
            assert(hits[j].body == sidebar::row_area(bar, bar.y + 2 + j, 1));
            assert(hits[k].body == sidebar::row_area(bar, bar.y + 2 + k, 1));
        } else {
            lemma_rows_grow(app.sessions, bar, j, k);
            lemma_top_row(app.sessions, bar, j);
            assert(sidebar::has_room(app.sessions, bar, j));
            assert(sidebar::has_room(app.sessions, bar, k));
            assert(hits[j] == sidebar::tab_hit(ui::ticked(app), bar, j));
            assert(hits[k] == sidebar::tab_hit(ui::ticked(app), bar, k));
        }
    }
    split_laws::lemma_first_hit(areas, x, y, 0, k);
}

/// The drawn tabs lie in the sidebar, below its first two rows, and in the expanded sidebar above
/// the row of the button that collapses it.
pub proof fn tabs_lie_in_the_sidebar(app: AppView, area: Rect, now: u64, k: int)
    requires
        area.wf(),
        0 <= k < ui::after_drawing(app, area, now).hits.tabs.len(),
    ensures
        ({
            let body = ui::after_drawing(app, area, now).hits.tabs[k].body;
            let bar = ui::sidebar_of(app, area);
            &&& body.x == bar.x
            &&& body.width == geometry::minus(bar.width as int, 1)
            &&& bar.y + 2 <= body.y
            &&& body.y + body.height <= bar.y + bar.height - (if app.sidebar_collapsed {
                0int
            } else {
                1
            })
        }),
{
    let bar = ui::sidebar_of(app, area);
    lemma_shown(app.sessions, bar, 0);
    if !app.sidebar_collapsed {
        assert(sidebar::has_room(app.sessions, bar, k));
        if k > 0 {
            lemma_rows_grow(app.sessions, bar, 0, k);
        }
    }
}

/// The rectangles of a drawn workspace have their right and bottom coordinates within `u16`.
#[verifier::rlimit(40)]
pub proof fn drawn_rectangles_are_valid(app: AppView, area: Rect, now: u64)
    requires
        app.wf(),
        area.wf(),
        ui::can_draw(app, area),
    ensures
        ui::after_drawing(app, area, now).wf(),
{
    let after = ui::after_drawing(app, area, now);
    let bar = ui::sidebar_of(app, area);
    let terminal = ui::terminal_of(app, area);
    lemma_shown(app.sessions, bar, 0);
    lemma_heading_rects(ui::ticked(app), bar, sidebar::shown(app.sessions, bar));
    if let Some(group) = app::group_at(app.sessions, app.active as int) {
        let layout = app::layout_of(app, group);
        lemma_leaf_rects(layout, terminal);
        lemma_pane_rects(layout::leaf_areas(layout, terminal), app.sessions);
    }
    assert forall|i: int| 0 <= i < after.hits.tabs.len() implies (
    #[trigger] after.hits.tabs[i]).body.wf() && after.hits.tabs[i].close.wf() by {
        if app.sidebar_collapsed {
            assert(after.hits.tabs[i] == sidebar::collapsed_tabs(ui::ticked(app), bar)[i]);
        } else {
            assert(after.hits.tabs[i] == sidebar::tab_hit(ui::ticked(app), bar, i));
            assert(sidebar::has_room(app.sessions, bar, i));
            lemma_top_row(app.sessions, bar, i);
        }
    }
}

proof fn lemma_heading_rects(app: AppView, bar: Rect, count: int)
    requires
        bar.wf(),
        forall|k: int| 0 <= k < count ==> #[trigger] sidebar::has_room(app.sessions, bar, k),
    ensures
        forall|i: int|
            0 <= i < sidebar::heading_hits(app, bar, count).len() ==> (
            #[trigger] sidebar::heading_hits(app, bar, count)[i]).1.wf(),
    decreases count,
{
    if count > 0 {
        lemma_heading_rects(app, bar, count - 1);
        lemma_top_row(app.sessions, bar, count - 1);
        assert(sidebar::has_room(app.sessions, bar, count - 1));
        let before = sidebar::heading_hits(app, bar, count - 1);
        let all = sidebar::heading_hits(app, bar, count);
        assert forall|i: int| 0 <= i < all.len() implies (#[trigger] all[i]).1.wf() by {
            if i < before.len() {
                assert(all[i] == before[i]);
            }
        }
    }
}

proof fn lemma_leaf_rects(layout: PaneLayout, area: Rect)
    requires
        area.wf(),
        layout::fits(layout, area),
    ensures
        forall|i: int|
            0 <= i < layout::leaf_areas(layout, area).len() ==> (
            #[trigger] layout::leaf_areas(layout, area)[i]).1.wf(),
    decreases layout,
{
    match layout {
        PaneLayout::Leaf(id) => {},
        PaneLayout::Split { axis, ratio, first, second } => {
            let left = layout::first_area(axis, ratio, area);
            let right = layout::second_area(axis, ratio, area);
            lemma_leaf_rects(*first, left);
            lemma_leaf_rects(*second, right);
            let a = layout::leaf_areas(*first, left);
            let b = layout::leaf_areas(*second, right);
            let all = layout::leaf_areas(layout, area);
            assert(all == a + b);
            assert forall|i: int| 0 <= i < all.len() implies (#[trigger] all[i]).1.wf() by {
                if i < a.len() {
                    assert(all[i] == a[i]);
                } else {
                    assert(all[i] == b[i - a.len()]);
                }
            }
        },
    }
}

proof fn lemma_pane_rects(areas: Seq<(u64, Rect)>, sessions: Seq<SessionView>)
    requires
        forall|i: int| 0 <= i < areas.len() ==> (#[trigger] areas[i]).1.wf(),
    ensures
        forall|i: int|
            0 <= i < layout::panes_among(areas, sessions).len() ==> (
            #[trigger] layout::panes_among(areas, sessions)[i]).1.wf(),
    decreases areas.len(),
{
    if areas.len() > 0 {
        assert forall|i: int| 0 <= i < areas.drop_last().len() implies (
        #[trigger] areas.drop_last()[i]).1.wf() by {
            assert(areas[i].1.wf());
        }
        assert(areas[areas.len() - 1].1.wf());
        lemma_pane_rects(areas.drop_last(), sessions);
        let before = layout::panes_among(areas.drop_last(), sessions);
        let all = layout::panes_among(areas, sessions);
        assert forall|i: int| 0 <= i < all.len() implies (#[trigger] all[i]).1.wf() by {
            if i < before.len() {
                assert(all[i] == before[i]);
            }
        }
    }
}

/// Drawing does not expand the sidebar on a screen of fewer than 72 columns.
pub proof fn drawing_keeps_the_sidebar_collapsed(app: AppView, area: Rect, now: u64)
    requires
        app.last_area.width < 72 ==> app.sidebar_collapsed,
    ensures
        ({
            let after = ui::after_drawing(app, area, now);
            after.last_area.width < 72 ==> after.sidebar_collapsed
        }),
{
}

} // verus!
