//! The sidebar with its tabs.

use crate::app;
use crate::app::{App, AppView, TabHit};
use crate::draw;
use crate::draw::{
    line_of, line_of_two, styled, text_at_right, text_line, Draw, DrawView, Span, SpanView,
};
use crate::geometry;
use crate::geometry::Rect;
use crate::labels;
use crate::labels::{compact_path, truncate};
use crate::session;
use crate::session::{Session, SessionView};
use crate::style;
use crate::style::{Color, Style};
use crate::tab_laws;
use crate::tabs;
use crate::tabs::{collapsed_sidebar_label, sidebar_order};
use crate::text;
use vstd::prelude::*;

verus! {

/// The style of the line between the sidebar and the terminal.
pub open spec fn edge_style() -> Style {
    style::in_color(Color::Rgb(55, 58, 74))
}

/// The line at the right edge of the sidebar.
pub open spec fn edge(sidebar: Rect) -> Seq<DrawView> {
    if sidebar.width == 0 {
        Seq::empty()
    } else {
        Seq::new(
            (sidebar.bottom_edge() - sidebar.y) as nat,
            |i: int|
                DrawView::Symbol {
                    x: sidebar.right_edge() - 1,
                    y: sidebar.y + i,
                    symbol: '│',
                    style: edge_style(),
                },
        )
    }
}

/// A row of the sidebar, without the line at its right edge.
pub open spec fn row_area(sidebar: Rect, row: int, height: int) -> Rect {
    geometry::rect(sidebar.x as int, row, geometry::minus(sidebar.width as int, 1), height)
}

/// How many tabs the collapsed sidebar shows.
pub open spec fn collapsed_count(app: AppView, sidebar: Rect) -> int {
    geometry::lesser(
        tabs::order(app.sessions).len() as int,
        geometry::minus(sidebar.height as int, 2),
    )
}

/// The style of a tab in the collapsed sidebar.
pub open spec fn collapsed_style(app: AppView, index: int) -> Style {
    let group = app::group_at(app.sessions, app.active as int);
    if index == app.active {
        Style {
            bg: Some(Color::Rgb(131, 166, 229)),
            bold: true,
            ..style::in_color(Color::Black)
        }
    } else if group is Some && app::group_at(app.sessions, index) == group {
        Style {
            bg: Some(Color::Rgb(49, 50, 68)),
            ..style::in_color(Color::Rgb(205, 214, 244))
        }
    } else {
        style::in_color(Color::DarkGray)
    }
}

/// The tabs of the collapsed sidebar.
pub open spec fn collapsed_rows(app: AppView, sidebar: Rect) -> Seq<DrawView> {
    let order = tabs::order(app.sessions);
    Seq::new(
        collapsed_count(app, sidebar) as nat,
        |k: int|
            draw::line_at(
                row_area(sidebar, sidebar.y + 2 + k, 1),
                seq![
                    draw::span(
                        tabs::row_label(app.sessions, order[k] as int),
                        collapsed_style(app, order[k] as int),
                    ),
                ],
                style::plain_style(),
            ),
    )
}

/// Where the tabs of the collapsed sidebar are. They have no close buttons.
pub open spec fn collapsed_tabs(app: AppView, sidebar: Rect) -> Seq<TabHit> {
    let order = tabs::order(app.sessions);
    Seq::new(
        collapsed_count(app, sidebar) as nat,
        |k: int|
            TabHit {
                index: order[k],
                body: row_area(sidebar, sidebar.y + 2 + k, 1),
                close: geometry::rect(0, 0, 0, 0),
            },
    )
}

/// The head of the expanded sidebar: the name of the host terminal, and the button for a new tab.
pub open spec fn head(app: AppView, sidebar: Rect) -> Seq<DrawView> {
    let area = row_area(sidebar, sidebar.y as int, 1);
    seq![
        draw::line_at(
            area,
            seq![
                draw::span(
                    " "@ + app.host_terminal,
                    Style { bold: true, ..style::in_color(Color::Rgb(131, 138, 166)) },
                ),
            ],
            style::plain_style(),
        ),
        draw::right_text(
            area,
            "+"@,
            Style { bold: true, ..style::in_color(Color::Rgb(131, 166, 229)) },
        ),
    ]
}

/// Where the button for a new tab is.
pub open spec fn plus_area(sidebar: Rect) -> Rect {
    geometry::rect(geometry::minus(sidebar.right_edge(), 3), sidebar.y as int, 2, 1)
}

/// The tab at place `k` of the order is the first one of its group, so the name of the group stands
/// above it.
pub open spec fn has_heading(sessions: Seq<SessionView>, k: int) -> bool {
    let order = tabs::order(sessions);
    let group = sessions[order[k] as int].group;
    group is Some && (k == 0 || sessions[order[k - 1] as int].group != group)
}

/// The rows of a heading.
pub open spec fn heading_rows(sessions: Seq<SessionView>, k: int) -> int {
    if has_heading(sessions, k) { 1 } else { 0 }
}

/// The first row of what belongs to the tab at place `k`: its heading, or the tab itself.
pub open spec fn top_row(sessions: Seq<SessionView>, sidebar: Rect, k: int) -> int
    decreases k,
{
    if k <= 0 {
        sidebar.y + 2
    } else {
        top_row(sessions, sidebar, k - 1) + heading_rows(sessions, k - 1) + 2
    }
}

/// There is room for the tab at place `k` above the last row of the sidebar.
pub open spec fn has_room(sessions: Seq<SessionView>, sidebar: Rect, k: int) -> bool {
    top_row(sessions, sidebar, k) + 2 < geometry::minus(sidebar.bottom_edge(), 1)
}

/// How many of the tabs from place `k` on are shown, counted from the start.
pub open spec fn shown_from(sessions: Seq<SessionView>, sidebar: Rect, k: int) -> int
    decreases tabs::order(sessions).len() - k,
{
    if k < tabs::order(sessions).len() && has_room(sessions, sidebar, k) {
        shown_from(sessions, sidebar, k + 1)
    } else {
        k
    }
}

/// How many tabs the expanded sidebar shows.
pub open spec fn shown(sessions: Seq<SessionView>, sidebar: Rect) -> int {
    shown_from(sessions, sidebar, 0)
}

/// The row of the tab at place `k`.
pub open spec fn tab_row(sessions: Seq<SessionView>, sidebar: Rect, k: int) -> int {
    top_row(sessions, sidebar, k) + heading_rows(sessions, k)
}

/// The style of the marks of the sidebar.
pub open spec fn mark_style() -> Style {
    style::in_color(Color::Rgb(110, 115, 141))
}

/// The style of a tab in the expanded sidebar.
pub open spec fn tab_style(active: bool) -> Style {
    if active {
        Style {
            bg: Some(Color::Rgb(35, 36, 54)),
            bold: true,
            ..style::in_color(Color::Rgb(205, 211, 240))
        }
    } else {
        style::in_color(Color::Rgb(166, 173, 200))
    }
}

/// The phases of the spinner.
pub open spec fn spinner(tick: int) -> char {
    seq!['⠋', '⠙', '⠹', '⠸', '⠼', '⠴', '⠦', '⠧', '⠇', '⠏'][(tick / 5) % 10]
}

/// The group goes on behind the tab at place `k`.
pub open spec fn continues(sessions: Seq<SessionView>, k: int) -> bool {
    let order = tabs::order(sessions);
    let group = sessions[order[k] as int].group;
    group is Some && k + 1 < order.len() && app::group_at(sessions, order[k + 1] as int) == group
}

/// The line with the name of a group.
pub open spec fn heading_line(title: Seq<char>) -> Seq<SpanView> {
    seq![
        draw::span(" ▾ "@, mark_style()),
        draw::span(
            title,
            Style { bold: true, ..style::in_color(Color::Rgb(137, 180, 250)) },
        ),
    ]
}

/// The name of a group above its tabs.
pub open spec fn heading(app: AppView, sidebar: Rect, k: int) -> Seq<DrawView> {
    let group = app.sessions[tabs::order(app.sessions)[k] as int].group;
    if has_heading(app.sessions, k) {
        seq![
            draw::line_at(
                row_area(sidebar, top_row(app.sessions, sidebar, k), 1),
                heading_line(labels::group_title(app.group_names, group->0)),
                style::plain_style(),
            ),
        ]
    } else {
        Seq::empty()
    }
}

/// The first line of a tab: what is running, and the name.
pub open spec fn name_line(
    session: SessionView,
    running: bool,
    active: bool,
    tick: int,
    sidebar: Rect,
) -> Seq<SpanView> {
    let grouped = session.group is Some;
    let width = geometry::minus(sidebar.width as int, if grouped { 8 } else { 6 });
    seq![
        draw::span(if grouped { " │ "@ } else { " "@ }, mark_style()),
        draw::span(
            seq![if running { spinner(tick) } else { ' ' }, ' '],
            style::in_color(Color::Rgb(137, 180, 250)),
        ),
        draw::span(
            labels::truncated(session::session_name(session), width),
            tab_style(active),
        ),
    ]
}

/// The second line of a tab: the working directory.
pub open spec fn directory_line(
    session: SessionView,
    more: bool,
    sidebar: Rect,
    home: Option<Seq<u8>>,
) -> Seq<SpanView> {
    let grouped = session.group is Some;
    let width = geometry::minus(sidebar.width as int, if grouped { 6 } else { 4 });
    seq![
        draw::span(
            if more {
                " │   "@
            } else if grouped {
                " └   "@
            } else {
                "   "@
            },
            mark_style(),
        ),
        draw::span(
            labels::compacted(session::directory_text(session.cwd, home), width),
            mark_style(),
        ),
    ]
}

/// Where the close button of a tab is.
pub open spec fn close_area(sidebar: Rect, row: int) -> Rect {
    geometry::rect(geometry::minus(sidebar.right_edge(), 4), row, 2, 1)
}

/// The two lines of a tab and its close button.
pub open spec fn tab_lines(
    session: SessionView,
    running: bool,
    active: bool,
    more: bool,
    tick: int,
    sidebar: Rect,
    row: int,
    home: Option<Seq<u8>>,
) -> Seq<DrawView> {
    seq![
        draw::line_at(
            row_area(sidebar, row, 1),
            name_line(session, running, active, tick, sidebar),
            tab_style(active),
        ),
        draw::right_text(
            close_area(sidebar, row),
            "×"@,
            style::in_color(Color::Rgb(137, 180, 250)),
        ),
        draw::line_at(
            row_area(sidebar, row + 1, 1),
            directory_line(session, more, sidebar, home),
            tab_style(active),
        ),
    ]
}

/// The tab at place `k` with its heading.
pub open spec fn tab(
    app: AppView,
    sidebar: Rect,
    k: int,
    home: Option<Seq<u8>>,
    now: u64,
) -> Seq<DrawView> {
    let index = tabs::order(app.sessions)[k];
    let session = app.sessions[index as int];
    heading(app, sidebar, k) + tab_lines(
        session,
        session::is_running(session, now),
        index == app.active,
        continues(app.sessions, k),
        app.spinner_tick as int,
        sidebar,
        tab_row(app.sessions, sidebar, k),
        home,
    )
}

/// The first `count` tabs of the expanded sidebar.
pub open spec fn tabs_upto(
    app: AppView,
    sidebar: Rect,
    count: int,
    home: Option<Seq<u8>>,
    now: u64,
) -> Seq<DrawView>
    decreases count,
{
    if count <= 0 {
        Seq::empty()
    } else {
        tabs_upto(app, sidebar, count - 1, home, now) + tab(app, sidebar, count - 1, home, now)
    }
}

/// Where the tab at place `k` of the expanded sidebar is.
pub open spec fn tab_hit(app: AppView, sidebar: Rect, k: int) -> TabHit {
    let row = tab_row(app.sessions, sidebar, k);
    TabHit {
        index: tabs::order(app.sessions)[k],
        body: row_area(sidebar, row, 2),
        close: close_area(sidebar, row),
    }
}

/// Where the first `count` tabs of the expanded sidebar are.
pub open spec fn tab_hits(app: AppView, sidebar: Rect, count: int) -> Seq<TabHit> {
    Seq::new(count as nat, |k: int| tab_hit(app, sidebar, k))
}

/// Where the headings of the first `count` tabs are.
pub open spec fn heading_hits(app: AppView, sidebar: Rect, count: int) -> Seq<(u64, Rect)>
    decreases count,
{
    if count <= 0 {
        Seq::empty()
    } else {
        let before = heading_hits(app, sidebar, count - 1);
        let group = app.sessions[tabs::order(app.sessions)[count - 1] as int].group;
        if has_heading(app.sessions, count - 1) {
            before.push(
                (group->0, row_area(sidebar, top_row(app.sessions, sidebar, count - 1), 1)),
            )
        } else {
            before
        }
    }
}

/// One of the first `count` tabs is that of the session at `index`.
pub open spec fn is_among(sessions: Seq<SessionView>, count: int, index: int) -> bool {
    exists|k: int| 0 <= k < count && #[trigger] tabs::order(sessions)[k] == index
}

/// The sessions after their tabs were drawn: it was looked whether commands are running in those
/// of the first `count` tabs.
pub open spec fn seen(sessions: Seq<SessionView>, count: int, now: u64) -> Seq<SessionView> {
    Seq::new(
        sessions.len(),
        |i: int|
            if is_among(sessions, count, i) {
                session::settled(sessions[i], now)
            } else {
                sessions[i]
            },
    )
}

/// The button that collapses or expands the sidebar.
pub open spec fn toggle(sidebar: Rect, collapsed: bool) -> DrawView {
    draw::right_text(
        row_area(sidebar, geometry::minus(sidebar.bottom_edge(), 1), 1),
        if collapsed { "»"@ } else { "«"@ },
        style::in_color(Color::Rgb(131, 138, 166)),
    )
}

/// Where the button is that collapses or expands the sidebar.
pub open spec fn toggle_area(sidebar: Rect) -> Rect {
    geometry::rect(
        geometry::minus(sidebar.right_edge(), 3),
        geometry::minus(sidebar.bottom_edge(), 1),
        2,
        1,
    )
}

/// What is drawn of the sidebar.
pub open spec fn sidebar_drawn(
    app: AppView,
    sidebar: Rect,
    home: Option<Seq<u8>>,
    now: u64,
) -> Seq<DrawView> {
    let rows = if app.sidebar_collapsed {
        collapsed_rows(app, sidebar)
    } else {
        head(app, sidebar) + tabs_upto(app, sidebar, shown(app.sessions, sidebar), home, now)
    };
    edge(sidebar) + rows + seq![toggle(sidebar, app.sidebar_collapsed)]
}

/// The workspace after its sidebar was drawn.
pub open spec fn with_sidebar(app: AppView, sidebar: Rect, now: u64) -> AppView {
    let count = shown(app.sessions, sidebar);
    let hits = if app.sidebar_collapsed {
        app::HitAreasView {
            sidebar,
            tabs: collapsed_tabs(app, sidebar),
            groups: Seq::empty(),
            toggle: toggle_area(sidebar),
            ..app.hits
        }
    } else {
        app::HitAreasView {
            sidebar,
            plus: plus_area(sidebar),
            tabs: tab_hits(app, sidebar, count),
            groups: heading_hits(app, sidebar, count),
            toggle: toggle_area(sidebar),
            ..app.hits
        }
    };
    AppView {
        hits,
        sessions: if app.sidebar_collapsed {
            app.sessions
        } else {
            seen(app.sessions, count, now)
        },
        ..app
    }
}

fn edge_color() -> (r: Style)
    ensures
        r == edge_style(),
{
    Style::plain().fg(Color::Rgb(55, 58, 74))
}

fn mark_color() -> (r: Style)
    ensures
        r == mark_style(),
{
    Style::plain().fg(Color::Rgb(110, 115, 141))
}

fn tab_color(active: bool) -> (r: Style)
    ensures
        r == tab_style(active),
{
    if active {
        Style::plain().fg(Color::Rgb(205, 211, 240)).bg(Color::Rgb(35, 36, 54)).bold()
    } else {
        Style::plain().fg(Color::Rgb(166, 173, 200))
    }
}

fn row_rect(sidebar: Rect, row: u16, height: u16) -> (r: Rect)
    ensures
        r == row_area(sidebar, row as int, height as int),
{
    Rect::new(sidebar.x, row, sidebar.width.saturating_sub(1), height)
}

fn draw_edge(sidebar: Rect) -> (r: Vec<Draw>)
    ensures
        draw::draw_views(r@) == edge(sidebar),
{
    let mut r: Vec<Draw> = Vec::new();
    if sidebar.width > 0 {
        let x = sidebar.right() - 1;
        let style = edge_color();
        let ghost whole = edge(sidebar);
        assert(draw::draw_views(r@) =~= whole.take(0));
        let bottom = sidebar.bottom();
        for y in sidebar.y..bottom
            invariant
                bottom == sidebar.bottom_edge(),
                sidebar.width > 0,
                whole == edge(sidebar),
                x == sidebar.right_edge() - 1,
                style == edge_style(),
                draw::draw_views(r@) == whole.take(y - sidebar.y),
        {
            draw::push(&mut r, Draw::Symbol { x, y, symbol: '│', style });
            assert(draw::draw_views(r@) =~= whole.take(y + 1 - sidebar.y));
        }
        assert(whole.take(whole.len() as int) =~= whole);
    }
    assert(draw::draw_views(r@) =~= edge(sidebar));
    r
}

fn draw_toggle(sidebar: Rect, collapsed: bool) -> (r: Draw)
    ensures
        r@ == toggle(sidebar, collapsed),
{
    text_at_right(
        row_rect(sidebar, sidebar.bottom().saturating_sub(1), 1),
        if collapsed { "»" } else { "«" },
        Style::plain().fg(Color::Rgb(131, 138, 166)),
    )
}

proof fn lemma_order_fits(app: &App)
    ensures
        forall|k: int|
            0 <= k < tabs::order(app@.sessions).len() ==> #[trigger] tabs::order(app@.sessions)[k]
                < app.sessions@.len(),
{
    assert(app@.sessions.len() == app.sessions.len());
    tab_laws::every_session_has_one_row(app@.sessions);
}

fn collapsed_color(app: &App, index: usize) -> (r: Style)
    requires
        index < app@.sessions.len(),
    ensures
        r == collapsed_style(app@, index as int),
{
    let ghost views = app@.sessions;
    if index == app.active {
        return Style::plain().fg(Color::Black).bg(Color::Rgb(131, 166, 229)).bold();
    }
    if app.active < app.sessions.len() {
        assert(views[app.active as int] == app.sessions@[app.active as int]@);
        assert(views[index as int] == app.sessions@[index as int]@);
        if let Some(group) = app.sessions[app.active].group {
            if let Some(own) = app.sessions[index].group {
                if own == group {
                    return Style::plain().fg(Color::Rgb(205, 214, 244)).bg(Color::Rgb(49, 50, 68));
                }
            }
        }
    }
    Style::plain().fg(Color::DarkGray)
}

/// Draws the tabs of the collapsed sidebar.
fn draw_collapsed(app: &App, sidebar: Rect) -> (r: (Vec<Draw>, Vec<TabHit>))
    requires
        sidebar.wf(),
    ensures
        draw::draw_views(r.0@) == collapsed_rows(app@, sidebar),
        r.1@ == collapsed_tabs(app@, sidebar),
{
    let order = sidebar_order(app);
    let ghost rows = collapsed_rows(app@, sidebar);
    let ghost hits = collapsed_tabs(app@, sidebar);
    proof {
        lemma_order_fits(app);
    }
    let room: usize = sidebar.height.saturating_sub(2) as usize;
    let count: usize = if order.len() < room { order.len() } else { room };
    let mut draws: Vec<Draw> = Vec::new();
    let mut tabs: Vec<TabHit> = Vec::new();
    assert(draw::draw_views(draws@) =~= rows.take(0));
    assert(tabs@ =~= hits.take(0));
    for k in 0..count
        invariant
            sidebar.wf(),
            order@ == tabs::order(app@.sessions),
            rows == collapsed_rows(app@, sidebar),
            hits == collapsed_tabs(app@, sidebar),
            count == collapsed_count(app@, sidebar),
            count <= order@.len(),
            count <= geometry::minus(sidebar.height as int, 2),
            forall|k: int|
                0 <= k < order@.len() ==> #[trigger] tabs::order(app@.sessions)[k]
                    < app.sessions@.len(),
            draw::draw_views(draws@) == rows.take(k as int),
            tabs@ == hits.take(k as int),
    {
        let index = order[k];
        assert(tabs::order(app@.sessions)[k as int] < app.sessions@.len());
        let style = collapsed_color(app, index);
        let label = collapsed_sidebar_label(app, index);
        let area = row_rect(sidebar, sidebar.y + 2 + k as u16, 1);
        let line = line_of(styled(label.as_str(), style));
        draw::push(&mut draws, text_line(area, line, Style::plain()));
        tabs.push(TabHit { index, body: area, close: Rect::default() });
        assert(draw::draw_views(draws@) =~= rows.take(k + 1));
        assert(tabs@ =~= hits.take(k + 1));
    }
    assert(rows.take(count as int) =~= rows);
    assert(hits.take(count as int) =~= hits);
    (draws, tabs)
}

fn draw_head(app: &App, sidebar: Rect) -> (r: Vec<Draw>)
    ensures
        draw::draw_views(r@) == head(app@, sidebar),
{
    let mut r: Vec<Draw> = Vec::new();
    let area = row_rect(sidebar, sidebar.y, 1);
    let title = " ".to_owned().concat(app.host_terminal.as_str());
    let title_style = Style::plain().fg(Color::Rgb(131, 138, 166)).bold();
    let line = line_of(Span { text: title, style: title_style });
    r.push(text_line(area, line, Style::plain()));
    r.push(text_at_right(area, "+", Style::plain().fg(Color::Rgb(131, 166, 229)).bold()));
    assert(draw::draw_views(r@) =~= head(app@, sidebar));
    r
}

fn spinner_phase(tick: usize) -> (r: char)
    ensures
        r == spinner(tick as int),
{
    match (tick / 5) % 10 {
        0 => '⠋',
        1 => '⠙',
        2 => '⠹',
        3 => '⠸',
        4 => '⠼',
        5 => '⠴',
        6 => '⠦',
        7 => '⠧',
        8 => '⠇',
        _ => '⠏',
    }
}

fn draw_heading(sidebar: Rect, row: u16, title: &str) -> (r: Draw)
    ensures
        r@ == draw::line_at(
            row_area(sidebar, row as int, 1),
            heading_line(title@),
            style::plain_style(),
        ),
{
    let title_style = Style::plain().fg(Color::Rgb(137, 180, 250)).bold();
    let line = line_of_two(styled(" ▾ ", mark_color()), styled(title, title_style));
    assert(draw::line_view(line@) =~= heading_line(title@));
    text_line(row_rect(sidebar, row, 1), line, Style::plain())
}

fn draw_tab_lines(
    session: &Session,
    running: bool,
    active: bool,
    more: bool,
    tick: usize,
    sidebar: Rect,
    row: u16,
    home: Option<&[u8]>,
) -> (r: Vec<Draw>)
    requires
        row < u16::MAX,
    ensures
        draw::draw_views(r@) == tab_lines(
            session@,
            running,
            active,
            more,
            tick as int,
            sidebar,
            row as int,
            text::borrowed_bytes(home),
        ),
{
    let grouped = session.group.is_some();
    let style = tab_color(active);
    let blue = Style::plain().fg(Color::Rgb(137, 180, 250));
    let mut status = String::new();
    status.push(if running { spinner_phase(tick) } else { ' ' });
    status.push(' ');
    assert(status@ =~= seq![if running { spinner(tick as int) } else { ' ' }, ' ']);
    let width = sidebar.width.saturating_sub(if grouped { 8 } else { 6 });
    let mut line: Vec<Span> = Vec::new();
    line.push(styled(if grouped { " │ " } else { " " }, mark_color()));
    line.push(Span { text: status, style: blue });
    line.push(Span { text: truncate(session.display_name(), width as usize), style });
    assert(draw::line_view(line@) =~= name_line(session@, running, active, tick as int, sidebar));
    let mut r: Vec<Draw> = Vec::new();
    r.push(text_line(row_rect(sidebar, row, 1), line, style));
    let close = Rect::new(sidebar.right().saturating_sub(4), row, 2, 1);
    r.push(text_at_right(close, "×", blue));
    let width = sidebar.width.saturating_sub(if grouped { 6 } else { 4 });
    let directory = session.directory_label(home);
    let mark = if more {
        " │   "
    } else if grouped {
        " └   "
    } else {
        "   "
    };
    let line = line_of_two(
        styled(mark, mark_color()),
        Span { text: compact_path(directory.as_str(), width as usize), style: mark_color() },
    );
    r.push(text_line(row_rect(sidebar, row + 1, 1), line, style));
    assert(draw::draw_views(r@) =~= tab_lines(
        session@,
        running,
        active,
        more,
        tick as int,
        sidebar,
        row as int,
        text::borrowed_bytes(home),
    ));
    r
}

/// Whether the next session in an order is in the group of the session at place `k`.
fn group_goes_on(sessions: &Vec<Session>, order: &Vec<usize>, k: usize) -> (r: bool)
    requires
        k < order@.len(),
        order@[k as int] < sessions@.len(),
        k + 1 < order@.len() ==> order@[k + 1] < sessions@.len(),
    ensures
        r == ({
            let views = session::session_views(sessions@);
            let group = views[order@[k as int] as int].group;
            group is Some && k + 1 < order@.len() && views[order@[k + 1] as int].group == group
        }),
{
    let ghost views = session::session_views(sessions@);
    assert(views[order@[k as int] as int] == sessions@[order@[k as int] as int]@);
    if k >= order.len() - 1 {
        return false;
    }
    assert(views[order@[k + 1] as int] == sessions@[order@[k + 1] as int]@);
    match (sessions[order[k]].group, sessions[order[k + 1]].group) {
        (Some(group), Some(next)) => group == next,
        _ => false,
    }
}

proof fn lemma_seen_step(sessions: Seq<SessionView>, k: int, now: u64)
    requires
        0 <= k < tabs::order(sessions).len(),
        tabs::order(sessions)[k] < sessions.len(),
    ensures
        ({
            let index = tabs::order(sessions)[k] as int;
            let before = seen(sessions, k, now);
            seen(sessions, k + 1, now) == before.update(
                index,
                session::settled(before[index], now),
            )
        }),
{
    let order = tabs::order(sessions);
    let index = order[k] as int;
    let before = seen(sessions, k, now);
    session::looking_changes_no_answer(sessions[index], now);
    assert forall|i: int| #![auto]
        0 <= i < sessions.len() implies is_among(sessions, k + 1, i) == (is_among(sessions, k, i)
        || i == index) by {
        assert(order[k] == index);
        if is_among(sessions, k + 1, i) {
            let j = choose|j: int| 0 <= j < k + 1 && #[trigger] order[j] == i;
            if j < k {
                assert(is_among(sessions, k, i));
            }
        }
    }
    assert(seen(sessions, k + 1, now) =~= before.update(
        index,
        session::settled(before[index], now),
    ));
}

impl App {
    /// Draws the tabs of the expanded sidebar.
    #[verifier::rlimit(50)]
    #[verifier::spinoff_prover]
    fn draw_tabs(&mut self, sidebar: Rect, home: Option<&[u8]>, now: u64) -> (r: (
        Vec<Draw>,
        Vec<TabHit>,
        Vec<(u64, Rect)>,
    ))
        requires
            sidebar.wf(),
        ensures
            ({
                let count = shown(old(self)@.sessions, sidebar);
                &&& final(self)@ == (AppView {
                    sessions: seen(old(self)@.sessions, count, now),
                    ..old(self)@
                })
                &&& draw::draw_views(r.0@) == tabs_upto(
                    old(self)@,
                    sidebar,
                    count,
                    text::borrowed_bytes(home),
                    now,
                )
                &&& r.1@ == tab_hits(old(self)@, sidebar, count)
                &&& r.2@ == heading_hits(old(self)@, sidebar, count)
            }),
    {
        let ghost before = self@;
        let ghost sessions = before.sessions;
        let ghost home_bytes = text::borrowed_bytes(home);
        let order = sidebar_order(self);
        proof {
            lemma_order_fits(self);
        }
        let mut draws: Vec<Draw> = Vec::new();
        let mut tabs: Vec<TabHit> = Vec::new();
        let mut groups: Vec<(u64, Rect)> = Vec::new();
        let mut previous: Option<u64> = None;
        let mut row: u32 = sidebar.y as u32 + 2;
        let limit: u32 = sidebar.bottom().saturating_sub(1) as u32;
        let mut k: usize = 0;
        assert(draw::draw_views(draws@) =~= Seq::empty());
        assert(tabs@ =~= tab_hits(before, sidebar, 0));
        assert(seen(sessions, 0, now) =~= sessions);
        while k < order.len() && row + 2 < limit
            invariant
                sidebar.wf(),
                before.sessions == sessions,
                home_bytes == text::borrowed_bytes(home),
                order@ == tabs::order(sessions),
                k <= order@.len(),
                self@ == (AppView { sessions: seen(sessions, k as int, now), ..before }),
                self.sessions@.len() == sessions.len(),
                forall|j: int|
                    0 <= j < order@.len() ==> #[trigger] tabs::order(sessions)[j] < sessions.len(),
                limit == geometry::minus(sidebar.bottom_edge(), 1),
                limit <= u16::MAX,
                row == top_row(sessions, sidebar, k as int),
                row <= u16::MAX + 2,
                previous == if k == 0 {
                    None
                } else {
                    sessions[order@[k - 1] as int].group
                },
                shown(sessions, sidebar) == shown_from(sessions, sidebar, k as int),
                draw::draw_views(draws@) == tabs_upto(before, sidebar, k as int, home_bytes, now),
                tabs@ == tab_hits(before, sidebar, k as int),
                groups@ == heading_hits(before, sidebar, k as int),
            decreases order@.len() - k,
        {
            let index = order[k];
            assert(tabs::order(sessions)[k as int] < sessions.len());
            let ghost untouched = sessions[index as int];
            let ghost current = self@.sessions;
            assert(current[index as int] == self.sessions@[index as int]@);
            let group = self.sessions[index].group;
            assert(group == untouched.group);
            let ghost drawn = draw::draw_views(draws@);
            if let Some(number) = group {
                let new_group = match previous {
                    Some(last) => last != number,
                    None => true,
                };
                assert(new_group == has_heading(sessions, k as int));
                if new_group {
                    let title = self.group_name(number);
                    draw::push(&mut draws, draw_heading(sidebar, row as u16, title.as_str()));
                    groups.push((number, row_rect(sidebar, row as u16, 1)));
                    row = row + 1;
                }
            }
            assert(draw::draw_views(draws@) =~= drawn + heading(before, sidebar, k as int));
            assert(groups@ == heading_hits(before, sidebar, k + 1));
            assert(row == tab_row(sessions, sidebar, k as int));
            previous = group;
            let more = group_goes_on(&self.sessions, &order, k);
            assert(more == continues(sessions, k as int)) by {
                if k + 1 < order@.len() {
                    assert(tabs::order(sessions)[k + 1] < sessions.len());
                }
            }
            let active = index == self.active;
            let tick = self.spinner_tick;
            proof {
                session::looking_changes_no_answer(untouched, now);
                lemma_seen_step(sessions, k as int, now);
            }
            let running = self.sessions[index].is_pending(now);
            assert(running == session::is_running(untouched, now));
            assert(self@.sessions =~= current.update(
                index as int,
                session::settled(current[index as int], now),
            ));
            let lines = draw_tab_lines(
                &self.sessions[index],
                running,
                active,
                more,
                tick,
                sidebar,
                row as u16,
                home,
            );
            assert(self@.sessions[index as int] == self.sessions@[index as int]@);
            assert(draw::draw_views(lines@) == tab_lines(
                untouched,
                running,
                active,
                more,
                tick as int,
                sidebar,
                row as int,
                home_bytes,
            ));
            draw::append(&mut draws, lines);
            assert(draw::draw_views(draws@) =~= tabs_upto(
                before,
                sidebar,
                k + 1,
                home_bytes,
                now,
            ));
            tabs.push(
                TabHit {
                    index,
                    body: row_rect(sidebar, row as u16, 2),
                    close: Rect::new(sidebar.right().saturating_sub(4), row as u16, 2, 1),
                },
            );
            assert(tabs@ =~= tab_hits(before, sidebar, k + 1));
            row = row + 2;
            k += 1;
        }
        (draws, tabs, groups)
    }

    /// Draws the sidebar, and notes where its parts are.
    pub(crate) fn draw_sidebar(&mut self, sidebar: Rect, home: Option<&[u8]>, now: u64) -> (r: Vec<
        Draw,
    >)
        requires
            sidebar.wf(),
        ensures
            final(self)@ == with_sidebar(old(self)@, sidebar, now),
            draw::draw_views(r@) == sidebar_drawn(
                old(self)@,
                sidebar,
                text::borrowed_bytes(home),
                now,
            ),
    {
        let ghost before = self@;
        let mut r = draw_edge(sidebar);
        if self.sidebar_collapsed {
            let (draws, tabs) = draw_collapsed(self, sidebar);
            draw::append(&mut r, draws);
            self.hits.tabs = tabs;
            self.hits.groups = Vec::new();
            assert(self@.hits.groups =~= Seq::empty());
        } else {
            draw::append(&mut r, draw_head(self, sidebar));
            let (draws, tabs, groups) = self.draw_tabs(sidebar, home, now);
            draw::append(&mut r, draws);
            self.hits.plus = Rect::new(sidebar.right().saturating_sub(3), sidebar.y, 2, 1);
            self.hits.tabs = tabs;
            self.hits.groups = groups;
        }
        self.hits.sidebar = sidebar;
        self.hits.toggle = Rect::new(
            sidebar.right().saturating_sub(3),
            sidebar.bottom().saturating_sub(1),
            2,
            1,
        );
        draw::push(&mut r, draw_toggle(sidebar, self.sidebar_collapsed));
        assert(draw::draw_views(r@) =~= sidebar_drawn(
            before,
            sidebar,
            text::borrowed_bytes(home),
            now,
        ));
        r
    }
}

} // verus!
