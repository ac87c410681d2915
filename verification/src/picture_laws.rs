//! What the picture of the workspace shows, and where.

use crate::app;
use crate::app::{AppView, InputModeView};
use crate::draw::DrawView;
use crate::drawing_laws;
use crate::geometry;
use crate::geometry::Rect;
use crate::labels;
use crate::layout::{SplitAxis, SplitHitView};
use crate::mouse_laws;
use crate::selection_laws;
use crate::session;
use crate::session::SessionView;
use crate::sidebar;
use crate::tab_laws;
use crate::tabs;
use crate::text;
use crate::ui;
use vstd::prelude::*;

verus! {

/// The sidebar stands at the left of the screen with 29 columns, or with 4 if it is collapsed, and
/// the terminal takes the rest. On a screen that is too narrow for that, the terminal has one
/// column.
pub proof fn the_sidebar_has_its_columns(app: AppView, area: Rect, now: u64)
    requires
        area.wf(),
        area.width > 0,
    ensures
        ({
            let hits = ui::after_drawing(app, area, now).hits;
            let columns: int = if app.sidebar_collapsed { 4 } else { 29 };
            &&& hits.sidebar.x == area.x
            &&& hits.sidebar.y == area.y && hits.terminal.y == area.y
            &&& hits.sidebar.height == area.height && hits.terminal.height == area.height
            &&& hits.terminal.x == area.x + hits.sidebar.width
            &&& hits.sidebar.width + hits.terminal.width == area.width
            &&& area.width > columns ==> hits.sidebar.width == columns
            &&& area.width <= columns ==> hits.terminal.width == 1
        }),
{
}

/// The step writes one line at the left of an area, whose last text is the given one.
pub open spec fn is_line(step: DrawView, area: Rect, text: Seq<char>) -> bool {
    step matches DrawView::Text(p) && p.area == area && p.lines.len() == 1 && p.lines[0].len() > 0
        && p.lines[0].last().text == text && !p.right && p.frame is None
}

/// The step writes one text at the right of an area.
pub open spec fn is_button(step: DrawView, area: Rect, text: Seq<char>) -> bool {
    step matches DrawView::Text(p) && p.area == area && p.lines.len() == 1 && p.lines[0].len() == 1
        && p.lines[0][0].text == text && p.right && p.frame is None
}

/// The part of a list that a list has behind `skipped` others.
spec fn stands_behind<T>(all: Seq<T>, part: Seq<T>, skipped: int) -> bool {
    &&& 0 <= skipped
    &&& skipped + part.len() <= all.len()
    &&& forall|i: int| 0 <= i < part.len() ==> #[trigger] all[skipped + i] == part[i]
}

proof fn lemma_tab_stands(
    app: AppView,
    bar: Rect,
    count: int,
    home: Option<Seq<u8>>,
    now: u64,
    k: int,
) -> (skipped: int)
    requires
        0 <= k < count,
    ensures
        stands_behind(
            sidebar::tabs_upto(app, bar, count, home, now),
            sidebar::tab(app, bar, k, home, now),
            skipped,
        ),
    decreases count,
{
    let before = sidebar::tabs_upto(app, bar, count - 1, home, now);
    let all = sidebar::tabs_upto(app, bar, count, home, now);
    if k < count - 1 {
        let skipped = lemma_tab_stands(app, bar, count - 1, home, now, k);
        let part = sidebar::tab(app, bar, k, home, now);
        assert forall|i: int| 0 <= i < part.len() implies #[trigger] all[skipped + i] == part[i] by {
            assert(before[skipped + i] == part[i]);
        }
        skipped
    } else {
        before.len() as int
    }
}

/// Where the expanded sidebar has a tab, its two rows show the name and the directory of the
/// session, as much of them as fits. Between them in the picture stands the button that closes the
/// tab, at the right end of the first row. The name of the active tab is bold. The sign before it
/// is blank exactly if no command is running.
#[verifier::rlimit(60)]
pub proof fn tabs_show_their_session(
    app: AppView,
    area: Rect,
    home: Option<Seq<u8>>,
    now: u64,
    k: int,
) -> (place: int)
    requires
        area.wf(),
        !app.sidebar_collapsed,
        app.sessions.len() <= usize::MAX,
        0 <= k < ui::after_drawing(app, area, now).hits.tabs.len(),
    ensures
        ({
            let steps = ui::drawn(app, area, home, now);
            let hits = ui::after_drawing(app, area, now).hits;
            let bar = hits.sidebar;
            let tab = hits.tabs[k];
            let session = app.sessions[tab.index as int];
            let indent: int = if session.group is Some { 2 } else { 0 };
            let upper = Rect { height: 1, ..tab.body };
            let lower = Rect { y: (tab.body.y + 1) as u16, height: 1, ..tab.body };
            &&& 0 <= place && place + 2 < steps.len()
            &&& tab.body.height == 2
            &&& is_line(
                steps[place],
                upper,
                labels::truncated(
                    session::session_name(session),
                    geometry::minus(bar.width as int, 6 + indent),
                ),
            )
            &&& steps[place]->Text_0.lines[0].last().style.bold == (tab.index == app.active)
            &&& steps[place]->Text_0.lines[0].len() == 3
            &&& (steps[place]->Text_0.lines[0][1].text[0] != ' ') == session::is_running(
                session,
                now,
            )
            &&& is_button(steps[place + 1], tab.close, "×"@)
            &&& tab.close.y == tab.body.y && tab.close.height == 1
            &&& bar.width >= 4 ==> tab.close.x + 4 == bar.x + bar.width && tab.close.width == 2
            &&& is_line(
                steps[place + 2],
                lower,
                labels::compacted(
                    session::directory_text(session.cwd, home),
                    geometry::minus(bar.width as int, 4 + indent),
                ),
            )
        }),
{
    let steps = ui::drawn(app, area, home, now);
    let ticking = ui::ticked(app);
    let bar = ui::sidebar_of(app, area);
    let count = sidebar::shown(app.sessions, bar);
    drawing_laws::lemma_shown(app.sessions, bar, 0);
    drawing_laws::lemma_top_row(app.sessions, bar, k);
    assert(sidebar::has_room(app.sessions, bar, k));
    let skipped = lemma_tab_stands(ticking, bar, count, home, now, k);
    let part = sidebar::tab(ticking, bar, k, home, now);
    let tabs = sidebar::tabs_upto(ticking, bar, count, home, now);
    let above = sidebar::edge(bar) + sidebar::head(ticking, bar);
    let own = sidebar::sidebar_drawn(ticking, bar, home, now);
    assert(own =~= above + tabs + seq![sidebar::toggle(bar, false)]);
    let heading = sidebar::heading(ticking, bar, k).len() as int;
    let place = above.len() + skipped + heading;
    let index = tabs::order(app.sessions)[k];
    let session = app.sessions[index as int];
    let lines = sidebar::tab_lines(
        session,
        session::is_running(session, now),
        index == app.active,
        sidebar::continues(app.sessions, k),
        ticking.spinner_tick as int,
        bar,
        sidebar::tab_row(app.sessions, bar, k),
        home,
    );
    assert(part == sidebar::heading(ticking, bar, k) + lines);
    assert forall|i: int| 0 <= i < 3 implies #[trigger] steps[place + i] == lines[i] by {
        assert(part[heading + i] == lines[i]);
        assert(tabs[skipped + (heading + i)] == part[heading + i]);
        assert(own[above.len() + (skipped + heading + i)] == tabs[skipped + heading + i]);
        assert(steps[place + i] == own[place + i]);
    }
    assert(steps[place + 0] == lines[0]);
    assert(steps[place + 1] == lines[1]);
    assert(steps[place + 2] == lines[2]);
    lemma_spinner(ticking.spinner_tick as int);
    assert(ui::after_drawing(app, area, now).hits.tabs[k] == sidebar::tab_hit(ticking, bar, k));
    place
}

proof fn lemma_spinner(tick: int)
    requires
        tick >= 0,
    ensures
        sidebar::spinner(tick) != ' ',
{
    let phase = (tick / 5) % 10;
    assert(0 <= phase < 10);
}

/// Where the collapsed sidebar has a tab, its row shows the label of the tab.
pub proof fn collapsed_tabs_show_their_label(
    app: AppView,
    area: Rect,
    home: Option<Seq<u8>>,
    now: u64,
    k: int,
) -> (place: int)
    requires
        area.wf(),
        app.sidebar_collapsed,
        0 <= k < ui::after_drawing(app, area, now).hits.tabs.len(),
    ensures
        ({
            let steps = ui::drawn(app, area, home, now);
            let tab = ui::after_drawing(app, area, now).hits.tabs[k];
            &&& 0 <= place < steps.len()
            &&& is_line(
                steps[place],
                tab.body,
                tabs::row_label(app.sessions, tab.index as int),
            )
            &&& tab.body.height == 1
            &&& tab.close.width == 0
        }),
{
    let steps = ui::drawn(app, area, home, now);
    let ticking = ui::ticked(app);
    let bar = ui::sidebar_of(app, area);
    let rows = sidebar::collapsed_rows(ticking, bar);
    let own = sidebar::sidebar_drawn(ticking, bar, home, now);
    let place = sidebar::edge(bar).len() + k;
    assert(own[place] == rows[k]);
    assert(steps[place] == own[place]);
    place
}

/// The button for a new tab shows a plus, and the button below shows where it moves the sidebar.
pub proof fn buttons_show_what_they_do(
    app: AppView,
    area: Rect,
    home: Option<Seq<u8>>,
    now: u64,
) -> (places: (int, int))
    requires
        area.wf(),
        area.width > 40,
        area.height > 3,
    ensures
        ({
            let steps = ui::drawn(app, area, home, now);
            let hits = ui::after_drawing(app, area, now).hits;
            let bar = hits.sidebar;
            let first = Rect { width: (bar.width - 1) as u16, height: 1, ..bar };
            let last = Rect { y: (bar.y + bar.height - 1) as u16, ..first };
            &&& 0 <= places.1 < steps.len()
            &&& is_button(steps[places.1], last, if app.sidebar_collapsed { "»"@ } else { "«"@ })
            &&& mouse_laws::covers(hits.toggle, bar.x + bar.width - 2, last.y as int)
            &&& hits.toggle.height == 1 && hits.toggle.width == 2
            &&& !app.sidebar_collapsed ==> {
                &&& 0 <= places.0 < steps.len()
                &&& is_button(steps[places.0], first, "+"@)
                &&& mouse_laws::covers(hits.plus, bar.x + bar.width - 2, first.y as int)
                &&& hits.plus.height == 1 && hits.plus.width == 2
            }
        }),
{
    let steps = ui::drawn(app, area, home, now);
    let ticking = ui::ticked(app);
    let bar = ui::sidebar_of(app, area);
    let own = sidebar::sidebar_drawn(ticking, bar, home, now);
    let low = own.len() - 1;
    assert(steps[low] == own[low]);
    let high = sidebar::edge(bar).len() as int + 1;
    if !app.sidebar_collapsed {
        assert(own[high] == sidebar::head(ticking, bar)[1]);
        assert(steps[high] == own[high]);
    }
    (high, low)
}

/// A line separates the sidebar from the terminal: it fills the last column of the sidebar.
pub proof fn a_line_stands_beside_the_terminal(
    app: AppView,
    area: Rect,
    home: Option<Seq<u8>>,
    now: u64,
    y: int,
) -> (place: int)
    requires
        area.wf(),
        area.width > 1,
        area.y <= y < area.y + area.height,
    ensures
        ({
            let steps = ui::drawn(app, area, home, now);
            let hits = ui::after_drawing(app, area, now).hits;
            &&& 0 <= place < steps.len()
            &&& steps[place] matches DrawView::Symbol { x, y: row, symbol, style } && x + 1
                == hits.terminal.x && row == y && symbol == '│'
        }),
{
    let bar = ui::sidebar_of(app, area);
    let place = y - bar.y;
    assert(ui::drawn(app, area, home, now)[place] == sidebar::edge(bar)[place]);
    place
}

proof fn lemma_terminal_drawn(app: AppView, panes: Seq<(usize, Rect)>, count: int, k: int) -> (
    place: int)
    requires
        0 <= k < count <= panes.len(),
        panes[k].0 < app.sessions.len(),
    ensures
        ({
            let steps = ui::terminals_drawn(app, panes, count);
            &&& 0 <= place < steps.len()
            &&& steps[place] == (DrawView::Terminal {
                index: panes[k].0,
                area: panes[k].1,
                cursor: panes[k].0 == app.active,
            })
        }),
    decreases count,
{
    if k < count - 1 {
        let place = lemma_terminal_drawn(app, panes, count - 1, k);
        assert(ui::terminals_drawn(app, panes, count)[place] == ui::terminals_drawn(
            app,
            panes,
            count - 1,
        )[place]);
        place
    } else {
        ui::terminals_drawn(app, panes, count - 1).len() as int
    }
}

/// Every pane shows the terminal of its session, and the pane of the active session its cursor.
pub proof fn panes_show_their_terminal(
    app: AppView,
    area: Rect,
    home: Option<Seq<u8>>,
    now: u64,
    k: int,
) -> (place: int)
    requires
        0 <= k < ui::after_drawing(app, area, now).hits.panes.len(),
        ui::after_drawing(app, area, now).hits.panes[k].0 < app.sessions.len(),
    ensures
        ({
            let steps = ui::drawn(app, area, home, now);
            let pane = ui::after_drawing(app, area, now).hits.panes[k];
            &&& 0 <= place < steps.len()
            &&& steps[place] == (DrawView::Terminal {
                index: pane.0,
                area: pane.1,
                cursor: pane.0 == app.active,
            })
        }),
{
    let terminal = ui::terminal_of(app, area);
    let panes = app::panes(app, terminal);
    let dividers = app::dividers(app, terminal);
    let before = sidebar::sidebar_drawn(
        ui::ticked(app),
        ui::sidebar_of(app, area),
        home,
        now,
    ) + ui::dividers_drawn(dividers, dividers.len() as int);
    let steps = ui::drawn(app, area, home, now);
    let part = ui::terminals_drawn(app, panes, panes.len() as int);
    let place = lemma_terminal_drawn(app, panes, panes.len() as int, k);
    assert(steps[before.len() + place] == part[place]);
    before.len() + place
}

/// No step of the list shows a terminal.
spec fn no_terminals(steps: Seq<DrawView>) -> bool {
    forall|i: int| 0 <= i < steps.len() ==> !((#[trigger] steps[i]) is Terminal)
}

proof fn lemma_no_terminals_add(a: Seq<DrawView>, b: Seq<DrawView>)
    requires
        no_terminals(a),
        no_terminals(b),
    ensures
        no_terminals(a + b),
{
    assert forall|i: int| 0 <= i < (a + b).len() implies !((#[trigger] (a + b)[i]) is Terminal) by {
        if i < a.len() {
            assert((a + b)[i] == a[i]);
        } else {
            assert((a + b)[i] == b[i - a.len()]);
        }
    }
}

proof fn lemma_no_terminals_in_tabs(
    app: AppView,
    bar: Rect,
    count: int,
    home: Option<Seq<u8>>,
    now: u64,
)
    ensures
        no_terminals(sidebar::tabs_upto(app, bar, count, home, now)),
    decreases count,
{
    if count > 0 {
        lemma_no_terminals_in_tabs(app, bar, count - 1, home, now);
        lemma_no_terminals_add(
            sidebar::tabs_upto(app, bar, count - 1, home, now),
            sidebar::tab(app, bar, count - 1, home, now),
        );
    }
}

proof fn lemma_no_terminals_in_rows(area: Rect, symbol: char, y: int)
    ensures
        no_terminals(ui::divider_rows(area, symbol, y)),
    decreases y - area.y,
{
    if y > area.y {
        lemma_no_terminals_in_rows(area, symbol, y - 1);
        lemma_no_terminals_add(
            ui::divider_rows(area, symbol, y - 1),
            ui::divider_row(area, symbol, y - 1),
        );
    }
}

proof fn lemma_no_terminals_in_dividers(hits: Seq<SplitHitView>, count: int)
    ensures
        no_terminals(ui::dividers_drawn(hits, count)),
    decreases count,
{
    if count > 0 {
        let hit = hits[count - 1];
        lemma_no_terminals_in_dividers(hits, count - 1);
        lemma_no_terminals_in_rows(
            hit.divider,
            ui::divider_symbol(hit.axis),
            hit.divider.bottom_edge(),
        );
        lemma_no_terminals_add(
            ui::dividers_drawn(hits, count - 1),
            ui::divider_rows(
                hit.divider,
                ui::divider_symbol(hit.axis),
                hit.divider.bottom_edge(),
            ),
        );
    }
}

/// The terminal that a step shows is that of a pane.
spec fn is_of_pane(app: AppView, panes: Seq<(usize, Rect)>, step: DrawView) -> bool {
    step matches DrawView::Terminal { index, area, cursor } ==> panes.contains((index, area))
        && cursor == (index == app.active)
}

proof fn lemma_terminals_of_panes(app: AppView, panes: Seq<(usize, Rect)>, count: int)
    requires
        0 <= count <= panes.len(),
    ensures
        forall|i: int|
            0 <= i < ui::terminals_drawn(app, panes, count).len() ==> is_of_pane(
                app,
                panes,
                #[trigger] ui::terminals_drawn(app, panes, count)[i],
            ),
    decreases count,
{
    if count > 0 {
        lemma_terminals_of_panes(app, panes, count - 1);
        let before = ui::terminals_drawn(app, panes, count - 1);
        let all = ui::terminals_drawn(app, panes, count);
        assert(panes[count - 1] == (panes[count - 1].0, panes[count - 1].1));
        assert(panes.contains(panes[count - 1]));
        assert forall|i: int| 0 <= i < all.len() implies is_of_pane(
            app,
            panes,
            #[trigger] all[i],
        ) by {
            if i < before.len() {
                assert(all[i] == before[i]);
            }
        }
    }
}

/// No terminal is shown but those of the panes, each in its own area, and none but the active one
/// shows its cursor.
#[verifier::rlimit(40)]
pub proof fn only_panes_show_terminals(
    app: AppView,
    area: Rect,
    home: Option<Seq<u8>>,
    now: u64,
    i: int,
)
    requires
        0 <= i < ui::drawn(app, area, home, now).len(),
    ensures
        ui::drawn(app, area, home, now)[i] matches DrawView::Terminal { index, area: at, cursor }
            ==> ui::after_drawing(app, area, now).hits.panes.contains((index, at)) && cursor == (
        index == app.active),
{
    let terminal = ui::terminal_of(app, area);
    let bar = ui::sidebar_of(app, area);
    let ticking = ui::ticked(app);
    let panes = app::panes(app, terminal);
    let dividers = app::dividers(app, terminal);
    let own = sidebar::sidebar_drawn(ticking, bar, home, now);
    let count = sidebar::shown(app.sessions, bar);
    lemma_no_terminals_in_tabs(ticking, bar, count, home, now);
    lemma_no_terminals_add(
        sidebar::head(ticking, bar),
        sidebar::tabs_upto(ticking, bar, count, home, now),
    );
    let rows = if app.sidebar_collapsed {
        sidebar::collapsed_rows(ticking, bar)
    } else {
        sidebar::head(ticking, bar) + sidebar::tabs_upto(ticking, bar, count, home, now)
    };
    assert(no_terminals(rows));
    assert(no_terminals(sidebar::edge(bar)));
    lemma_no_terminals_add(sidebar::edge(bar), rows);
    lemma_no_terminals_add(
        sidebar::edge(bar) + rows,
        seq![sidebar::toggle(bar, app.sidebar_collapsed)],
    );
    lemma_no_terminals_in_dividers(dividers, dividers.len() as int);
    let lines = ui::dividers_drawn(dividers, dividers.len() as int);
    lemma_no_terminals_add(own, lines);
    let front = own + lines;
    let middle = ui::terminals_drawn(app, panes, panes.len() as int);
    let hint = ui::hint(app, terminal, now);
    let menu = ui::menu_drawn(app);
    let window = ui::window(app, area);
    lemma_no_terminals_add(hint, menu);
    lemma_no_terminals_add(hint + menu, window);
    let rest = hint + menu + window;
    let all = ui::drawn(app, area, home, now);
    assert(all =~= front + middle + rest);
    lemma_terminals_of_panes(app, panes, panes.len() as int);
    if i < front.len() {
        assert(all[i] == front[i]);
    } else if i < front.len() + middle.len() {
        assert(all[i] == middle[i - front.len()]);
        assert(is_of_pane(app, panes, middle[i - front.len()]));
    } else {
        assert(all[i] == rest[i - front.len() - middle.len()]);
    }
}

proof fn lemma_divider_cell(area: Rect, symbol: char, bottom: int, x: int, y: int) -> (place: int)
    requires
        area.wf(),
        area.x <= x < area.x + area.width,
        area.y <= y < bottom,
    ensures
        ({
            let steps = ui::divider_rows(area, symbol, bottom);
            &&& 0 <= place < steps.len()
            &&& steps[place] matches DrawView::Symbol { x: column, y: row, symbol: shown, style }
                && column == x && row == y && shown == symbol
        }),
    decreases bottom - area.y,
{
    let above = ui::divider_rows(area, symbol, bottom - 1);
    let row = ui::divider_row(area, symbol, bottom - 1);
    let all = ui::divider_rows(area, symbol, bottom);
    if y < bottom - 1 {
        let place = lemma_divider_cell(area, symbol, bottom - 1, x, y);
        assert(all[place] == above[place]);
        place
    } else {
        assert(all[above.len() + (x - area.x)] == row[x - area.x]);
        above.len() + (x - area.x)
    }
}

proof fn lemma_divider_drawn(hits: Seq<SplitHitView>, count: int, k: int, i: int) -> (place: int)
    requires
        0 <= k < count <= hits.len(),
        0 <= i < ui::divider_rows(
            hits[k].divider,
            ui::divider_symbol(hits[k].axis),
            hits[k].divider.bottom_edge(),
        ).len(),
    ensures
        0 <= place < ui::dividers_drawn(hits, count).len(),
        ui::dividers_drawn(hits, count)[place] == ui::divider_rows(
            hits[k].divider,
            ui::divider_symbol(hits[k].axis),
            hits[k].divider.bottom_edge(),
        )[i],
    decreases count,
{
    let before = ui::dividers_drawn(hits, count - 1);
    if k < count - 1 {
        let place = lemma_divider_drawn(hits, count - 1, k, i);
        assert(ui::dividers_drawn(hits, count)[place] == before[place]);
        place
    } else {
        assert(ui::dividers_drawn(hits, count)[before.len() + i] == ui::divider_rows(
            hits[k].divider,
            ui::divider_symbol(hits[k].axis),
            hits[k].divider.bottom_edge(),
        )[i]);
        before.len() + i
    }
}

/// Every cell of a divider shows a line: an upright one between panes side by side, and a level one
/// between panes on top of each other.
pub proof fn dividers_are_shown(
    app: AppView,
    area: Rect,
    home: Option<Seq<u8>>,
    now: u64,
    k: int,
    x: int,
    y: int,
) -> (place: int)
    requires
        0 <= k < ui::after_drawing(app, area, now).hits.split_dividers.len(),
        ui::after_drawing(app, area, now).hits.split_dividers[k].divider.wf(),
        mouse_laws::covers(
            ui::after_drawing(app, area, now).hits.split_dividers[k].divider,
            x,
            y,
        ),
    ensures
        ({
            let steps = ui::drawn(app, area, home, now);
            let hit = ui::after_drawing(app, area, now).hits.split_dividers[k];
            &&& 0 <= place < steps.len()
            &&& steps[place] matches DrawView::Symbol { x: column, y: row, symbol, style } && column
                == x && row == y && symbol == match hit.axis {
                SplitAxis::Horizontal => '│',
                SplitAxis::Vertical => '─',
            }
        }),
{
    let terminal = ui::terminal_of(app, area);
    let hits = app::dividers(app, terminal);
    let own = sidebar::sidebar_drawn(ui::ticked(app), ui::sidebar_of(app, area), home, now);
    let hit = hits[k];
    let i = lemma_divider_cell(
        hit.divider,
        ui::divider_symbol(hit.axis),
        hit.divider.bottom_edge(),
        x,
        y,
    );
    let place = lemma_divider_drawn(hits, hits.len() as int, k, i);
    assert(ui::drawn(app, area, home, now)[own.len() + place] == ui::dividers_drawn(
        hits,
        hits.len() as int,
    )[place]);
    own.len() + place
}

/// A window lies in the middle of an area: the space at its sides differs by no more than one cell.
pub open spec fn is_centered(window: Rect, area: Rect) -> bool {
    let left = window.x - area.x;
    let right = area.x + area.width - (window.x + window.width);
    let above = window.y - area.y;
    let below = area.y + area.height - (window.y + window.height);
    &&& 0 <= left <= right <= left + 1
    &&& 0 <= above <= below <= above + 1
}

/// The window for a name has 42 columns and three rows, and that for the question 52 columns and
/// seven rows, but four columns of the screen are left free. Both lie in the middle of the screen.
pub proof fn windows_lie_in_the_middle(area: Rect)
    requires
        area.wf(),
        area.width >= 4,
        area.height >= 7,
    ensures
        is_centered(ui::rename_area(area), area),
        is_centered(ui::confirm_area(area), area),
        ui::rename_area(area).height == 3,
        ui::confirm_area(area).height == 7,
        area.width >= 46 ==> ui::rename_area(area).width == 42,
        area.width < 46 ==> ui::rename_area(area).width == area.width - 4,
        area.width >= 56 ==> ui::confirm_area(area).width == 52,
        area.width < 56 ==> ui::confirm_area(area).width == area.width - 4,
{
}

/// The answers can be clicked while the question is open, and only then. They lie side by side on
/// the fifth line inside the frame of the question, each as wide as its text.
pub proof fn answers_lie_in_the_question(app: AppView, area: Rect, now: u64)
    requires
        area.wf(),
        area.width >= 56,
        area.height >= 7,
    ensures
        ({
            let hits = ui::after_drawing(app, area, now).hits;
            let window = ui::confirm_area(area);
            let yes = hits.confirm_yes;
            let no = hits.confirm_no;
            &&& !(app.input_mode is ConfirmClose) ==> yes.width == 0 && no.width == 0
            &&& app.input_mode is ConfirmClose ==> {
                &&& yes.y == window.y + 5 && no.y == window.y + 5
                &&& yes.height == 1 && no.height == 1
                &&& yes.width == 15 && no.width == 12
                &&& window.x + 3 == yes.x
                &&& yes.x + yes.width == no.x
                &&& no.x + no.width < window.x + window.width
            }
        }),
{
}

/// The question names the tab that is to be closed, and says why it is asked: a command is running,
/// or it is the last tab.
pub proof fn the_question_names_its_tab(app: AppView, area: Rect, session_id: u64, index: int)
    requires
        session::position_of(app.sessions, session_id) == Some(index),
        area.width >= 56,
    ensures
        ({
            let lines = ui::confirm_lines(app, area, session_id);
            let name = session::session_name(app.sessions[index]);
            &&& lines.len() == 5
            &&& app.sessions.len() > 1 ==> lines[1][0].text == " Close “"@ + labels::truncated(
                name,
                40,
            ) + "”?"@
            &&& app.sessions.len() > 1 ==> lines[2][0].text
                == " A command is still running. Are you sure?"@
            &&& app.sessions.len() == 1 ==> lines[1][0].text == " Exit this workspace?"@
            &&& app.sessions.len() == 1 ==> lines[2][0].text
                == " This is the last tab. Are you sure?"@
        }),
{
}

/// While a name is edited, the cursor stands in the window for it: behind the name, as long as
/// there is room.
pub proof fn the_cursor_stands_behind_the_name(area: Rect, value: Seq<char>)
    requires
        area.wf(),
        area.width >= 8,
        area.height >= 3,
    ensures
        ({
            let window = ui::rename_area(area);
            let (x, y) = ui::rename_cursor(area, value);
            &&& y == window.y + 1
            &&& window.x < x < window.x + window.width - 1
            &&& value.len() + 3 <= window.width ==> x == window.x + 1 + value.len()
            &&& value.len() + 3 > window.width ==> x == window.x + window.width - 2
        }),
{
}

/// What is open is shown above the rest: the hint as long as the prefix key waits, at the bottom
/// right of the terminal, then the menu, then the window.
pub proof fn open_parts_are_shown_last(
    app: AppView,
    area: Rect,
    home: Option<Seq<u8>>,
    now: u64,
)
    requires
        area.wf(),
    ensures
        ({
            let steps = ui::drawn(app, area, home, now);
            let terminal = ui::after_drawing(app, area, now).hits.terminal;
            let hint = ui::hint(app, terminal, now);
            let top = hint + ui::menu_drawn(app) + ui::window(app, area);
            &&& top.len() <= steps.len()
            &&& steps.skip(steps.len() - top.len()) == top
            &&& app.prefix_started is None ==> hint.len() == 0
            &&& app.prefix_started matches Some(started) ==> (hint.len() > 0) == (now <= started
                + 1_000_000_000)
            &&& hint.len() > 0 && terminal.height > 0 ==> (hint[0] matches DrawView::Text(p)
                && p.area.x + p.area.width == terminal.x + terminal.width && p.area.y + 1
                == terminal.y + terminal.height && p.area.height == 1)
            &&& (app.context_menu is None) == (ui::menu_drawn(app).len() == 0)
            &&& (app.input_mode is Normal) == (ui::window(app, area).len() == 0)
        }),
{
    let steps = ui::drawn(app, area, home, now);
    let terminal = ui::terminal_of(app, area);
    let dividers = app::dividers(app, terminal);
    let panes = app::panes(app, terminal);
    let top = ui::hint(app, terminal, now) + ui::menu_drawn(app) + ui::window(app, area);
    let below = sidebar::sidebar_drawn(
        ui::ticked(app),
        ui::sidebar_of(app, area),
        home,
        now,
    ) + ui::dividers_drawn(dividers, dividers.len() as int) + ui::terminals_drawn(
        app,
        panes,
        panes.len() as int,
    );
    assert(steps =~= below + top);
    assert(steps.skip(steps.len() - top.len()) =~= top);
}

/// An open menu shows its entries in the rows where they can be clicked, one row below the upper
/// edge of its frame.
pub proof fn menus_show_their_entries(app: AppView, i: int)
    requires
        app.context_menu matches Some(open) && 0 <= i < open.entries.len(),
    ensures
        ({
            let open = app.context_menu->0;
            let steps = ui::menu_drawn(app);
            &&& steps.len() == 2
            &&& steps[0] == DrawView::Clear(open.area)
            &&& steps[1] matches DrawView::Text(p) && p.area == open.area && p.frame is Some
                && p.lines.len() == open.entries.len() && p.lines[i].len() == 1
                && p.lines[i][0].text == " "@ + open.entries[i].0
        }),
{
}

/// The tabs of the expanded sidebar stand below each other, two rows each, from the third row of
/// the sidebar on. Above the first tab of a group stands one row with the name of the group, and
/// this row can be clicked.
pub proof fn tabs_stand_below_each_other(
    app: AppView,
    area: Rect,
    home: Option<Seq<u8>>,
    now: u64,
    k: int,
) -> (places: (int, int))
    requires
        area.wf(),
        !app.sidebar_collapsed,
        app.sessions.len() <= usize::MAX,
        0 <= k < ui::after_drawing(app, area, now).hits.tabs.len(),
    ensures
        ({
            let steps = ui::drawn(app, area, home, now);
            let hits = ui::after_drawing(app, area, now).hits;
            let tab = hits.tabs[k];
            let group = app.sessions[tab.index as int].group;
            let headed = group is Some && selection_laws::leads(app.sessions, tab.index as int);
            let above: int = if k == 0 { area.y + 2 } else { hits.tabs[k - 1].body.y + 2 };
            let heading = Rect { y: above as u16, height: 1, ..tab.body };
            &&& !headed ==> tab.body.y == above
            &&& headed ==> {
                &&& tab.body.y == above + 1
                &&& 0 <= places.0 < steps.len()
                &&& is_line(
                    steps[places.0],
                    heading,
                    labels::group_title(app.group_names, group->0),
                )
                &&& 0 <= places.1 < hits.groups.len()
                &&& hits.groups[places.1] == (group->0, heading)
            }
        }),
{
    let steps = ui::drawn(app, area, home, now);
    let ticking = ui::ticked(app);
    let bar = ui::sidebar_of(app, area);
    let count = sidebar::shown(app.sessions, bar);
    let hits = ui::after_drawing(app, area, now).hits;
    drawing_laws::lemma_shown(app.sessions, bar, 0);
    drawing_laws::lemma_top_row(app.sessions, bar, k);
    assert(sidebar::has_room(app.sessions, bar, k));
    assert(hits.tabs[k] == sidebar::tab_hit(ticking, bar, k));
    tab_laws::every_session_has_one_row(app.sessions);
    if app.sessions[tabs::order(app.sessions)[k] as int].group is Some {
        selection_laws::groups_start_with_their_first_session(app.sessions, k);
    }
    if k > 0 {
        drawing_laws::lemma_top_row(app.sessions, bar, k - 1);
        assert(sidebar::has_room(app.sessions, bar, k - 1));
        assert(hits.tabs[k - 1] == sidebar::tab_hit(ticking, bar, k - 1));
    }
    let skipped = lemma_tab_stands(ticking, bar, count, home, now, k);
    let part = sidebar::tab(ticking, bar, k, home, now);
    let tabs = sidebar::tabs_upto(ticking, bar, count, home, now);
    let above = sidebar::edge(bar) + sidebar::head(ticking, bar);
    let own = sidebar::sidebar_drawn(ticking, bar, home, now);
    assert(own =~= above + tabs + seq![sidebar::toggle(bar, false)]);
    let place = above.len() + skipped;
    if sidebar::has_heading(app.sessions, k) {
        assert(part[0] == sidebar::heading(ticking, bar, k)[0]);
        assert(tabs[skipped + 0] == part[0]);
        assert(own[above.len() + skipped] == tabs[skipped]);
        assert(steps[place] == own[place]);
        (place, lemma_heading_hit(ticking, bar, count, k))
    } else {
        (0, 0)
    }
}

proof fn lemma_heading_hit(app: AppView, bar: Rect, count: int, k: int) -> (place: int)
    requires
        0 <= k < count,
        sidebar::has_heading(app.sessions, k),
    ensures
        ({
            let hits = sidebar::heading_hits(app, bar, count);
            let group = app.sessions[tabs::order(app.sessions)[k] as int].group->0;
            &&& 0 <= place < hits.len()
            &&& hits[place] == (
                group,
                sidebar::row_area(bar, sidebar::top_row(app.sessions, bar, k), 1),
            )
        }),
    decreases count,
{
    let before = sidebar::heading_hits(app, bar, count - 1);
    if k < count - 1 {
        let place = lemma_heading_hit(app, bar, count - 1, k);
        assert(sidebar::heading_hits(app, bar, count)[place] == before[place]);
        place
    } else {
        before.len() as int
    }
}

/// Tabs are left out of the sidebar only where it has no room for them: the collapsed one shows one
/// in each row below its second one, and the expanded one shows them above its last row.
pub proof fn tabs_are_shown_while_there_is_room(app: AppView, area: Rect, now: u64)
    requires
        area.wf(),
        app.sessions.len() <= usize::MAX,
        ui::after_drawing(app, area, now).hits.tabs.len() < app.sessions.len(),
    ensures
        ({
            let tabs = ui::after_drawing(app, area, now).hits.tabs;
            let count = tabs.len() as int;
            let next: int = if count == 0 { area.y + 2 } else { tabs[count - 1].body.y + 2 };
            &&& app.sidebar_collapsed ==> count + 2 >= area.height
            &&& !app.sidebar_collapsed ==> next + 2 >= area.y + area.height - 1
        }),
{
    let ticking = ui::ticked(app);
    let bar = ui::sidebar_of(app, area);
    let tabs = ui::after_drawing(app, area, now).hits.tabs;
    let count = tabs.len() as int;
    lemma_as_many_rows(app.sessions);
    drawing_laws::lemma_shown(app.sessions, bar, 0);
    if !app.sidebar_collapsed {
        lemma_no_room(app.sessions, bar, 0);
        assert(!sidebar::has_room(app.sessions, bar, count));
        if count > 0 {
            assert(sidebar::has_room(app.sessions, bar, count - 1));
            drawing_laws::lemma_top_row(app.sessions, bar, count - 1);
            assert(tabs[count - 1] == sidebar::tab_hit(ticking, bar, count - 1));
        }
    }
}

proof fn lemma_no_room(sessions: Seq<SessionView>, bar: Rect, from: int)
    requires
        0 <= from <= tabs::order(sessions).len(),
    ensures
        ({
            let count = sidebar::shown_from(sessions, bar, from);
            count < tabs::order(sessions).len() ==> !sidebar::has_room(sessions, bar, count)
        }),
    decreases tabs::order(sessions).len() - from,
{
    if from < tabs::order(sessions).len() && sidebar::has_room(sessions, bar, from) {
        lemma_no_room(sessions, bar, from + 1);
    }
}

proof fn lemma_as_many_rows(sessions: Seq<SessionView>)
    requires
        sessions.len() <= usize::MAX,
    ensures
        tabs::order(sessions).len() >= sessions.len(),
{
    let list = tabs::order(sessions);
    tab_laws::every_session_has_one_row(sessions);
    let rows = Seq::new(list.len(), |k: int| list[k] as int);
    assert forall|i: int| 0 <= i < sessions.len() implies rows.contains(i) by {
        assert(list.contains(i as usize));
        let k = choose|k: int| 0 <= k < list.len() && list[k] == i as usize;
        assert(rows[k] == i);
    }
    lemma_long_enough(rows, sessions.len() as int);
}

proof fn lemma_long_enough(rows: Seq<int>, count: int)
    requires
        0 <= count,
        forall|i: int| 0 <= i < count ==> rows.contains(i),
    ensures
        rows.len() >= count,
    decreases count,
{
    if count > 0 {
        let k = rows.index_of(count - 1);
        assert(rows.contains(count - 1));
        let rest = rows.remove(k);
        assert forall|i: int| 0 <= i < count - 1 implies rest.contains(i) by {
            assert(rows.contains(i));
            let j = choose|j: int| 0 <= j < rows.len() && rows[j] == i;
            assert(rest[if j < k { j } else { j - 1 }] == i);
        }
        lemma_long_enough(rest, count - 1);
    }
}

/// A name is shown in a window as it is edited, and the title of the window says whether it is that
/// of a tab or of a group. The cursor stands in the window.
pub proof fn edited_names_are_shown(app: AppView, area: Rect, id: u64, value: Seq<char>)
    requires
        !value.contains('\n'),
        app.input_mode == (InputModeView::Rename { session_id: id, value }) || app.input_mode == (
        InputModeView::RenameGroup { group_id: id, value }),
    ensures
        ({
            let steps = ui::window(app, area);
            let window = ui::rename_area(area);
            let (x, y) = ui::rename_cursor(area, value);
            &&& steps.len() == 3
            &&& steps[0] == DrawView::Clear(window)
            &&& steps[1] matches DrawView::Text(p) && p.area == window && p.lines.len() == 1
                && p.lines[0].len() == 1 && p.lines[0][0].text == value && p.frame is Some
                && p.frame->0.title == (if app.input_mode is Rename {
                " Rename tab "@
            } else {
                " Rename group "@
            })
            &&& steps[2] == (DrawView::Cursor { x, y })
        }),
{
    if value.len() > 0 {
        lemma_one_line(value);
        let pieces = text::split(value, '\n');
        assert(text::lines(value).len() == 1);
        assert(text::lines(value)[0] == pieces[0]);
    }
}

proof fn lemma_one_line(s: Seq<char>)
    requires
        !s.contains('\n'),
    ensures
        text::split(s, '\n') == seq![s],
    decreases s.len(),
{
    if s.len() > 0 {
        assert(s[s.len() - 1] != '\n');
        assert(!s.drop_last().contains('\n')) by {
            if s.drop_last().contains('\n') {
                let i = choose|i: int| 0 <= i < s.drop_last().len() && s.drop_last()[i] == '\n';
                assert(s[i] == '\n');
            }
        }
        lemma_one_line(s.drop_last());
        assert(s.drop_last().push(s.last()) =~= s);
        assert(text::split(s, '\n') =~= seq![s]);
    } else {
        assert(s =~= Seq::empty());
    }
}

/// The sign of a running command turns: it changes with every fifth picture, and comes back after
/// fifty. In between, no two of its ten phases are the same.
pub proof fn the_sign_of_a_running_command_turns(app: AppView, area: Rect, now: u64, j: int, k: int)
    requires
        0 <= j < 50,
        0 <= k < 50,
    ensures
        app.spinner_tick < usize::MAX ==> ui::after_drawing(app, area, now).spinner_tick
            == app.spinner_tick + 1,
        (sidebar::spinner(j) == sidebar::spinner(k)) == (j / 5 == k / 5),
        sidebar::spinner(j + 50) == sidebar::spinner(j),
{
    assert((j / 5) % 10 == j / 5);
    assert((k / 5) % 10 == k / 5);
    assert(((j + 50) / 5) % 10 == j / 5);
}

} // verus!
