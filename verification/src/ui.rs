//! The whole screen.

use crate::app;
use crate::app::{
    pane_geometry, App, AppView, ContextMenuView, HitAreasView, InputMode, InputModeView,
};
use crate::draw;
use crate::draw::{
    line_of, line_of_two, styled, Draw, DrawView, Frame, FrameView, Paragraph, ParagraphView, Span,
    SpanView,
};
use crate::geometry;
use crate::geometry::{split_columns, Rect, COLLAPSED_WIDTH, SIDEBAR_WIDTH};
use crate::input;
use crate::input::PREFIX_TIMEOUT;
use crate::labels;
use crate::labels::truncate;
use crate::layout;
use crate::layout::{SplitAxis, SplitHit, SplitHitView};
use crate::session;
use crate::session::session_position;
use crate::sidebar;
use crate::style;
use crate::style::{Color, Style};
use crate::text;
use crate::text::lines_of;
use vstd::prelude::*;

verus! {

/// The style of menus and questions.
pub open spec fn popup_style() -> Style {
    Style {
        bg: Some(Color::Rgb(24, 24, 37)),
        ..style::in_color(Color::Rgb(205, 214, 244))
    }
}

/// The symbol of a divider.
pub open spec fn divider_symbol(axis: SplitAxis) -> char {
    match axis {
        SplitAxis::Horizontal => '│',
        SplitAxis::Vertical => '─',
    }
}

/// The style of a divider.
pub open spec fn divider_style() -> Style {
    style::in_color(Color::Rgb(69, 71, 90))
}

/// One row of a divider.
pub open spec fn divider_row(area: Rect, symbol: char, y: int) -> Seq<DrawView> {
    Seq::new(
        (area.right_edge() - area.x) as nat,
        |i: int| DrawView::Symbol { x: area.x + i, y, symbol, style: divider_style() },
    )
}

/// The rows of a divider above row `y`.
pub open spec fn divider_rows(area: Rect, symbol: char, y: int) -> Seq<DrawView>
    decreases y - area.y,
{
    if y <= area.y {
        Seq::empty()
    } else {
        divider_rows(area, symbol, y - 1) + divider_row(area, symbol, y - 1)
    }
}

/// The first `count` dividers.
pub open spec fn dividers_drawn(hits: Seq<SplitHitView>, count: int) -> Seq<DrawView>
    decreases count,
{
    if count <= 0 {
        Seq::empty()
    } else {
        let hit = hits[count - 1];
        dividers_drawn(hits, count - 1) + divider_rows(
            hit.divider,
            divider_symbol(hit.axis),
            hit.divider.bottom_edge(),
        )
    }
}

/// The terminals in the first `count` panes. The active one shows its cursor.
pub open spec fn terminals_drawn(app: AppView, panes: Seq<(usize, Rect)>, count: int) -> Seq<
    DrawView,
>
    decreases count,
{
    if count <= 0 {
        Seq::empty()
    } else {
        let before = terminals_drawn(app, panes, count - 1);
        let (index, area) = panes[count - 1];
        if index < app.sessions.len() {
            before.push(DrawView::Terminal { index, area, cursor: index == app.active })
        } else {
            before
        }
    }
}

/// What the prefix key can be followed by.
pub open spec fn hint_text() -> Seq<char> {
    " prefix: 1-0 tab  ←/→ cycle  h/j/k/l pane  T new  W close  s sidebar "@
}

/// Where the hint is shown: at the bottom right of the terminal.
pub open spec fn hint_area(terminal: Rect) -> Rect {
    let width = geometry::lesser(hint_text().len() as int, terminal.width as int);
    geometry::rect(
        geometry::minus(terminal.right_edge(), width),
        geometry::minus(terminal.bottom_edge(), 1),
        width,
        1,
    )
}

/// The hint that is shown while the prefix key waits.
pub open spec fn hint(app: AppView, terminal: Rect, now: u64) -> Seq<DrawView> {
    if input::prefix_live(app, now) {
        seq![
            draw::line_at(
                hint_area(terminal),
                seq![draw::span(hint_text(), style::plain_style())],
                Style {
                    bg: Some(Color::Rgb(137, 180, 250)),
                    bold: true,
                    ..style::in_color(Color::Rgb(24, 24, 37))
                },
            ),
        ]
    } else {
        Seq::empty()
    }
}

/// A line of plain text.
pub open spec fn plain_line(text: Seq<char>) -> Seq<SpanView> {
    seq![draw::span(text, style::plain_style())]
}

/// The lines of a menu.
pub open spec fn menu_lines(menu: ContextMenuView) -> Seq<Seq<SpanView>> {
    Seq::new(menu.entries.len(), |i: int| plain_line(" "@ + menu.entries[i].0))
}

/// The open menu.
pub open spec fn menu_drawn(app: AppView) -> Seq<DrawView> {
    match app.context_menu {
        Some(menu) => seq![
            DrawView::Clear(menu.area),
            DrawView::Text(
                ParagraphView {
                    area: menu.area,
                    lines: menu_lines(menu),
                    style: popup_style(),
                    right: false,
                    frame: Some(
                        FrameView { title: Seq::empty(), style: sidebar::edge_style() },
                    ),
                },
            ),
        ],
        None => Seq::empty(),
    }
}

/// A window in the middle of the screen, with a margin of two columns at each side.
pub open spec fn popup_area(area: Rect, columns: int, rows: int) -> Rect {
    let width = geometry::lesser(columns, geometry::minus(area.width as int, 4));
    geometry::rect(
        area.x + geometry::minus(area.width as int, width) / 2,
        area.y + geometry::minus(area.height as int, rows) / 2,
        width,
        rows,
    )
}

/// Where a name is edited.
pub open spec fn rename_area(area: Rect) -> Rect {
    popup_area(area, 42, 3)
}

/// Where the cursor stands while a name is edited: behind it, or at the right edge.
pub open spec fn rename_cursor(area: Rect, value: Seq<char>) -> (int, int) {
    let popup = rename_area(area);
    (
        popup.x + 1 + geometry::lesser(
            value.len() as int,
            geometry::minus(popup.width as int, 3),
        ),
        popup.y + 1,
    )
}

/// The lines of an edited text. Nothing is one empty line.
pub open spec fn edited_lines(value: Seq<char>) -> Seq<Seq<SpanView>> {
    if value.len() == 0 {
        seq![plain_line(value)]
    } else {
        let lines = text::lines(value);
        Seq::new(lines.len(), |i: int| plain_line(lines[i]))
    }
}

/// The window in which a name is edited.
pub open spec fn rename_window(area: Rect, value: Seq<char>, title: Seq<char>) -> Seq<DrawView> {
    let popup = rename_area(area);
    let (x, y) = rename_cursor(area, value);
    seq![
        DrawView::Clear(popup),
        DrawView::Text(
            ParagraphView {
                area: popup,
                lines: edited_lines(value),
                style: popup_style(),
                right: false,
                frame: Some(
                    FrameView { title, style: style::in_color(Color::Rgb(137, 180, 250)) },
                ),
            },
        ),
        DrawView::Cursor { x, y },
    ]
}

/// Where the close of a session is confirmed.
pub open spec fn confirm_area(area: Rect) -> Rect {
    popup_area(area, 52, 7)
}

/// The name of the session that is to be closed.
pub open spec fn closing_name(app: AppView, session_id: u64) -> Seq<char> {
    match session::position_of(app.sessions, session_id) {
        Some(index) => session::session_name(app.sessions[index]),
        None => "tab"@,
    }
}

/// The lines of the question whether to close a session.
pub open spec fn confirm_lines(app: AppView, area: Rect, session_id: u64) -> Seq<Seq<SpanView>> {
    let last = app.sessions.len() == 1;
    let width = geometry::minus(
        geometry::lesser(52, geometry::minus(area.width as int, 4)),
        12,
    );
    let question = if last {
        " Exit this workspace?"@
    } else {
        " Close “"@ + labels::truncated(closing_name(app, session_id), width) + "”?"@
    };
    let reason = if last {
        " This is the last tab. Are you sure?"@
    } else {
        " A command is still running. Are you sure?"@
    };
    let yes = if last { "   Exit [Y]    "@ } else { "   Close [Y]   "@ };
    seq![
        plain_line(""@),
        plain_line(question),
        plain_line(reason),
        plain_line(""@),
        answer_line(yes),
    ]
}

/// The answers to the question whether to close a session.
pub open spec fn answer_line(yes: Seq<char>) -> Seq<SpanView> {
    seq![
        draw::span(yes, Style { bold: true, ..style::in_color(Color::Rgb(243, 139, 168)) }),
        draw::span(" Cancel [N] "@, style::in_color(Color::Rgb(166, 173, 200))),
    ]
}

/// The question whether to close a session.
pub open spec fn confirm_window(app: AppView, area: Rect, session_id: u64) -> Seq<DrawView> {
    let popup = confirm_area(area);
    seq![
        DrawView::Clear(popup),
        DrawView::Text(
            ParagraphView {
                area: popup,
                lines: confirm_lines(app, area, session_id),
                style: popup_style(),
                right: false,
                frame: Some(
                    FrameView {
                        title: " Confirm close "@,
                        style: style::in_color(Color::Rgb(243, 139, 168)),
                    },
                ),
            },
        ),
    ]
}

/// The open window, if any.
pub open spec fn window(app: AppView, area: Rect) -> Seq<DrawView> {
    match app.input_mode {
        InputModeView::Normal => Seq::empty(),
        InputModeView::Rename { session_id, value } => rename_window(
            area,
            value,
            " Rename tab "@,
        ),
        InputModeView::RenameGroup { group_id, value } => rename_window(
            area,
            value,
            " Rename group "@,
        ),
        InputModeView::ConfirmClose { session_id } => confirm_window(app, area, session_id),
    }
}

/// Where the answers to the question are.
pub open spec fn answers(app: AppView, area: Rect) -> (Rect, Rect) {
    if app.input_mode is ConfirmClose {
        let popup = confirm_area(area);
        (
            geometry::rect(popup.x + 3, popup.y + 5, 15, 1),
            geometry::rect(popup.x + 18, popup.y + 5, 12, 1),
        )
    } else {
        (geometry::rect(0, 0, 0, 0), geometry::rect(0, 0, 0, 0))
    }
}

/// The coordinates in the open window stay within `u16`.
pub open spec fn window_fits(app: AppView, area: Rect) -> bool {
    match app.input_mode {
        InputModeView::Normal => true,
        InputModeView::Rename { session_id, value } => cursor_fits(area, value),
        InputModeView::RenameGroup { group_id, value } => cursor_fits(area, value),
        InputModeView::ConfirmClose { session_id } => confirm_area(area).x + 18 <= u16::MAX
            && confirm_area(area).y + 5 <= u16::MAX,
    }
}

/// The coordinates of the cursor stay within `u16` while a name is edited.
pub open spec fn cursor_fits(area: Rect, value: Seq<char>) -> bool {
    rename_cursor(area, value).0 <= u16::MAX && rename_cursor(area, value).1 <= u16::MAX
}

/// The next picture of the spinner.
pub open spec fn ticked(app: AppView) -> AppView {
    AppView { spinner_tick: vstd::wrapping::usize_specs::wrapping_add(app.spinner_tick, 1), ..app }
}

/// The sidebar in an area.
pub open spec fn sidebar_of(app: AppView, area: Rect) -> Rect {
    geometry::sidebar_part(area, geometry::sidebar_columns(app.sidebar_collapsed))
}

/// The terminal in an area.
pub open spec fn terminal_of(app: AppView, area: Rect) -> Rect {
    geometry::terminal_rect(area, app.sidebar_collapsed)
}

/// What is drawn in an area.
pub open spec fn drawn(app: AppView, area: Rect, home: Option<Seq<u8>>, now: u64) -> Seq<
    DrawView,
> {
    let terminal = terminal_of(app, area);
    let dividers = app::dividers(app, terminal);
    let panes = app::panes(app, terminal);
    sidebar::sidebar_drawn(ticked(app), sidebar_of(app, area), home, now) + dividers_drawn(
        dividers,
        dividers.len() as int,
    ) + terminals_drawn(app, panes, panes.len() as int) + hint(app, terminal, now) + menu_drawn(app)
        + window(app, area)
}

/// The workspace after it was drawn: where everything was drawn is known.
pub open spec fn after_drawing(app: AppView, area: Rect, now: u64) -> AppView {
    let terminal = terminal_of(app, area);
    let base = sidebar::with_sidebar(ticked(app), sidebar_of(app, area), now);
    AppView {
        hits: HitAreasView {
            terminal,
            panes: app::panes(app, terminal),
            split_dividers: app::dividers(app, terminal),
            confirm_yes: answers(app, area).0,
            confirm_no: answers(app, area).1,
            ..base.hits
        },
        ..base
    }
}

/// The coordinates of everything that is drawn stay within `u16`.
pub open spec fn can_draw(app: AppView, area: Rect) -> bool {
    app::panes_fit(app, terminal_of(app, area)) && window_fits(app, area)
}

fn popup_color() -> (r: Style)
    ensures
        r == popup_style(),
{
    Style::plain().bg(Color::Rgb(24, 24, 37)).fg(Color::Rgb(205, 214, 244))
}

fn draw_divider(hit: &SplitHit, out: &mut Vec<Draw>)
    ensures
        draw::draw_views(final(out)@) == draw::draw_views(old(out)@) + divider_rows(
            hit@.divider,
            divider_symbol(hit@.axis),
            hit@.divider.bottom_edge(),
        ),
{
    let ghost before = draw::draw_views(out@);
    let area = hit.divider;
    let symbol = match hit.axis {
        SplitAxis::Horizontal => '│',
        SplitAxis::Vertical => '─',
    };
    let style = Style::plain().fg(Color::Rgb(69, 71, 90));
    let bottom = area.bottom();
    let right = area.right();
    assert(before + divider_rows(area, symbol, area.y as int) =~= before);
    for y in area.y..bottom
        invariant
            bottom == area.bottom_edge(),
            right == area.right_edge(),
            style == divider_style(),
            draw::draw_views(out@) == before + divider_rows(area, symbol, y as int),
    {
        let ghost above = draw::draw_views(out@);
        let ghost row = divider_row(area, symbol, y as int);
        assert(above + row.take(0) =~= above);
        for x in area.x..right
            invariant
                right == area.right_edge(),
                style == divider_style(),
                row == divider_row(area, symbol, y as int),
                draw::draw_views(out@) == above + row.take(x - area.x),
        {
            draw::push(out, Draw::Symbol { x, y, symbol, style });
            assert(draw::draw_views(out@) =~= above + row.take(x + 1 - area.x));
        }
        assert(row.take(row.len() as int) =~= row);
        assert(draw::draw_views(out@) =~= before + divider_rows(area, symbol, y + 1));
    }
}

fn draw_dividers(hits: &Vec<SplitHit>) -> (r: Vec<Draw>)
    ensures
        draw::draw_views(r@) == dividers_drawn(
            layout::split_hit_views(hits@),
            hits@.len() as int,
        ),
{
    let ghost views = layout::split_hit_views(hits@);
    let mut r: Vec<Draw> = Vec::new();
    assert(draw::draw_views(r@) =~= Seq::empty());
    for i in 0..hits.len()
        invariant
            views == layout::split_hit_views(hits@),
            draw::draw_views(r@) == dividers_drawn(views, i as int),
    {
        assert(views[i as int] == hits@[i as int]@);
        draw_divider(&hits[i], &mut r);
    }
    r
}

fn draw_terminals(app: &App, panes: &Vec<(usize, Rect)>) -> (r: Vec<Draw>)
    ensures
        draw::draw_views(r@) == terminals_drawn(app@, panes@, panes@.len() as int),
{
    let mut r: Vec<Draw> = Vec::new();
    assert(draw::draw_views(r@) =~= Seq::empty());
    for i in 0..panes.len()
        invariant
            draw::draw_views(r@) == terminals_drawn(app@, panes@, i as int),
    {
        let (index, area) = panes[i];
        if index < app.sessions.len() {
            draw::push(&mut r, Draw::Terminal { index, area, cursor: index == app.active });
        }
    }
    r
}

fn plain_text(text: &str) -> (r: Vec<Span>)
    ensures
        draw::line_view(r@) == plain_line(text@),
{
    line_of(styled(text, Style::plain()))
}

fn draw_hint(app: &App, terminal: Rect, now: u64) -> (r: Vec<Draw>)
    ensures
        draw::draw_views(r@) == hint(app@, terminal, now),
{
    let mut r: Vec<Draw> = Vec::new();
    let waiting = match app.prefix_started {
        Some(started) => now <= started || now - started <= PREFIX_TIMEOUT,
        None => false,
    };
    if waiting {
        let text = " prefix: 1-0 tab  ←/→ cycle  h/j/k/l pane  T new  W close  s sidebar ";
        let length = text.unicode_len();
        let width: u16 = if length < terminal.width as usize {
            length as u16
        } else {
            terminal.width
        };
        let area = Rect::new(
            terminal.right().saturating_sub(width),
            terminal.bottom().saturating_sub(1),
            width,
            1,
        );
        let style = Style::plain().fg(Color::Rgb(24, 24, 37)).bg(Color::Rgb(137, 180, 250)).bold();
        let line = plain_text(text);
        assert(area == hint_area(terminal));
        r.push(draw::text_line(area, line, style));
    }
    assert(draw::draw_views(r@) =~= hint(app@, terminal, now));
    r
}

fn draw_menu(app: &App) -> (r: Vec<Draw>)
    ensures
        draw::draw_views(r@) == menu_drawn(app@),
{
    let mut r: Vec<Draw> = Vec::new();
    if let Some(menu) = &app.context_menu {
        r.push(Draw::Clear(menu.area));
        let ghost wanted = menu_lines(menu@);
        let mut lines: Vec<Vec<Span>> = Vec::new();
        for i in 0..menu.entries.len()
            invariant
                wanted == menu_lines(menu@),
                lines@.len() == i,
                forall|j: int|
                    0 <= j < i ==> draw::line_view((#[trigger] lines@[j])@) == wanted[j],
        {
            assert(menu@.entries[i as int].0 == menu.entries@[i as int].0@);
            let label = " ".to_owned().concat(menu.entries[i].0.as_str());
            lines.push(plain_text(label.as_str()));
        }
        assert(draw::line_views(lines@) =~= wanted);
        let title = String::new();
        assert(title@ =~= Seq::empty());
        r.push(
            Draw::Text(
                Paragraph {
                    area: menu.area,
                    lines,
                    style: popup_color(),
                    right: false,
                    frame: Some(
                        Frame { title, style: Style::plain().fg(Color::Rgb(55, 58, 74)) },
                    ),
                },
            ),
        );
        assert(r@[1]@ == menu_drawn(app@)[1]);
    }
    assert(draw::draw_views(r@) =~= menu_drawn(app@));
    r
}

fn popup_rect(area: Rect, columns: u16, rows: u16) -> (r: Rect)
    requires
        area.wf(),
    ensures
        r == popup_area(area, columns as int, rows as int),
{
    let margin = area.width.saturating_sub(4);
    let width: u16 = if columns < margin { columns } else { margin };
    Rect::new(
        area.x + area.width.saturating_sub(width) / 2,
        area.y + area.height.saturating_sub(rows) / 2,
        width,
        rows,
    )
}

fn draw_edited(value: &String) -> (r: Vec<Vec<Span>>)
    ensures
        draw::line_views(r@) == edited_lines(value@),
{
    let mut r: Vec<Vec<Span>> = Vec::new();
    if value.as_str().is_empty() {
        r.push(plain_text(value.as_str()));
    } else {
        let lines = lines_of(value.as_str());
        let ghost texts = text::texts(lines@);
        for i in 0..lines.len()
            invariant
                texts == text::texts(lines@),
                r@.len() == i,
                forall|j: int|
                    0 <= j < i ==> draw::line_view((#[trigger] r@[j])@) == plain_line(texts[j]),
        {
            assert(texts[i as int] == lines@[i as int]@);
            r.push(plain_text(lines[i].as_str()));
        }
    }
    assert(draw::line_views(r@) =~= edited_lines(value@));
    r
}

fn draw_rename(area: Rect, value: &String, title: &str) -> (r: Vec<Draw>)
    requires
        area.wf(),
        cursor_fits(area, value@),
    ensures
        draw::draw_views(r@) == rename_window(area, value@, title@),
{
    let popup = popup_rect(area, 42, 3);
    let lines = draw_edited(value);
    let mut r: Vec<Draw> = Vec::new();
    r.push(Draw::Clear(popup));
    r.push(
        Draw::Text(
            Paragraph {
                area: popup,
                lines,
                style: popup_color(),
                right: false,
                frame: Some(
                    Frame {
                        title: title.to_owned(),
                        style: Style::plain().fg(Color::Rgb(137, 180, 250)),
                    },
                ),
            },
        ),
    );
    let room: u16 = popup.width.saturating_sub(3);
    let length = value.as_str().unicode_len();
    let shift: u16 = if length < room as usize { length as u16 } else { room };
    r.push(Draw::Cursor { x: popup.x + 1 + shift, y: popup.y + 1 });
    assert(draw::draw_views(r@) =~= rename_window(area, value@, title@));
    r
}

fn question_lines(app: &App, area: Rect, session_id: u64) -> (r: Vec<Vec<Span>>)
    ensures
        draw::line_views(r@) == confirm_lines(app@, area, session_id),
{
    let last = app.sessions.len() == 1;
    let margin = area.width.saturating_sub(4);
    let width: u16 = if 52 < margin { 52 } else { margin };
    let mut lines: Vec<Vec<Span>> = Vec::new();
    lines.push(plain_text(""));
    if last {
        lines.push(plain_text(" Exit this workspace?"));
    } else {
        let label = match session_position(app.sessions.as_slice(), session_id) {
            Some(index) => {
                assert(app@.sessions[index as int] == app.sessions@[index as int]@);
                app.sessions[index].display_name()
            },
            None => "tab",
        };
        assert(label@ == closing_name(app@, session_id));
        let short = truncate(label, width.saturating_sub(12) as usize);
        let question = " Close “".to_owned().concat(short.as_str()).concat("”?");
        lines.push(plain_text(question.as_str()));
    }
    if last {
        lines.push(plain_text(" This is the last tab. Are you sure?"));
    } else {
        lines.push(plain_text(" A command is still running. Are you sure?"));
    }
    lines.push(plain_text(""));
    let yes = if last { "   Exit [Y]    " } else { "   Close [Y]   " };
    let answers = line_of_two(
        styled(yes, Style::plain().fg(Color::Rgb(243, 139, 168)).bold()),
        styled(" Cancel [N] ", Style::plain().fg(Color::Rgb(166, 173, 200))),
    );
    assert(draw::line_view(answers@) =~= answer_line(yes@));
    lines.push(answers);
    assert(draw::line_views(lines@) =~= confirm_lines(app@, area, session_id));
    lines
}

fn draw_confirm(app: &App, area: Rect, session_id: u64) -> (r: Vec<Draw>)
    requires
        area.wf(),
    ensures
        draw::draw_views(r@) == confirm_window(app@, area, session_id),
{
    let popup = popup_rect(area, 52, 7);
    let lines = question_lines(app, area, session_id);
    let mut r: Vec<Draw> = Vec::new();
    r.push(Draw::Clear(popup));
    r.push(
        Draw::Text(
            Paragraph {
                area: popup,
                lines,
                style: popup_color(),
                right: false,
                frame: Some(
                    Frame {
                        title: " Confirm close ".to_owned(),
                        style: Style::plain().fg(Color::Rgb(243, 139, 168)),
                    },
                ),
            },
        ),
    );
    assert(draw::draw_views(r@) =~= confirm_window(app@, area, session_id));
    r
}

fn draw_window(app: &App, area: Rect) -> (r: Vec<Draw>)
    requires
        area.wf(),
        window_fits(app@, area),
    ensures
        draw::draw_views(r@) == window(app@, area),
{
    match &app.input_mode {
        InputMode::Normal => {
            let r: Vec<Draw> = Vec::new();
            assert(draw::draw_views(r@) =~= Seq::empty());
            r
        },
        InputMode::Rename { session_id, value } => draw_rename(area, value, " Rename tab "),
        InputMode::RenameGroup { group_id, value } => draw_rename(area, value, " Rename group "),
        InputMode::ConfirmClose { session_id } => draw_confirm(app, area, *session_id),
    }
}

fn answer_areas(app: &App, area: Rect) -> (r: (Rect, Rect))
    requires
        area.wf(),
        window_fits(app@, area),
    ensures
        r == answers(app@, area),
{
    match &app.input_mode {
        InputMode::ConfirmClose { session_id } => {
            let popup = popup_rect(area, 52, 7);
            (
                Rect::new(popup.x + 3, popup.y + 5, 15, 1),
                Rect::new(popup.x + 18, popup.y + 5, 12, 1),
            )
        },
        _ => (Rect::default(), Rect::default()),
    }
}

impl App {
    /// Whether the coordinates of everything that is drawn in an area stay within `u16`.
    pub fn can_render(&self, area: Rect) -> (r: bool)
        requires
            area.wf(),
        ensures
            r == can_draw(self@, area),
    {
        let width: u16 = if self.sidebar_collapsed { COLLAPSED_WIDTH } else { SIDEBAR_WIDTH };
        let (_, terminal) = split_columns(area, width);
        if !self.panes_fit_in(terminal) {
            return false;
        }
        match &self.input_mode {
            InputMode::Normal => true,
            InputMode::Rename { session_id, value } => cursor_in_range(area, value),
            InputMode::RenameGroup { group_id, value } => cursor_in_range(area, value),
            InputMode::ConfirmClose { session_id } => {
                let popup = popup_rect(area, 52, 7);
                popup.x <= u16::MAX - 18 && popup.y <= u16::MAX - 5
            },
        }
    }
}

fn cursor_in_range(area: Rect, value: &String) -> (r: bool)
    requires
        area.wf(),
    ensures
        r == cursor_fits(area, value@),
{
    let popup = popup_rect(area, 42, 3);
    let room: u16 = popup.width.saturating_sub(3);
    let length = value.as_str().unicode_len();
    let shift: u16 = if length < room as usize { length as u16 } else { room };
    popup.x as u32 + 1 + shift as u32 <= 65535 && popup.y < u16::MAX
}

/// Draws the workspace in an area, and notes where everything was drawn. The home directory is
/// shown as a tilde.
pub fn render(app: &mut App, area: Rect, home: Option<&[u8]>, now: u64) -> (r: Vec<Draw>)
    requires
        area.wf(),
        can_draw(old(app)@, area),
    ensures
        draw::draw_views(r@) == drawn(old(app)@, area, text::borrowed_bytes(home), now),
        final(app)@ == after_drawing(old(app)@, area, now),
{
    let ghost before = app@;
    let ghost home_bytes = text::borrowed_bytes(home);
    let width: u16 = if app.sidebar_collapsed { COLLAPSED_WIDTH } else { SIDEBAR_WIDTH };
    let (sidebar, terminal) = split_columns(area, width);
    let (panes, dividers) = pane_geometry(app, terminal);
    let divider_draws = draw_dividers(&dividers);
    let terminals = draw_terminals(app, &panes);
    let hint_draws = draw_hint(app, terminal, now);
    let menu_draws = draw_menu(app);
    let window_draws = draw_window(app, area);
    let (yes, no) = answer_areas(app, area);
    app.spinner_tick = app.spinner_tick.wrapping_add(1);
    assert(app@ == ticked(before));
    let mut r = app.draw_sidebar(sidebar, home, now);
    draw::append(&mut r, divider_draws);
    draw::append(&mut r, terminals);
    draw::append(&mut r, hint_draws);
    draw::append(&mut r, menu_draws);
    draw::append(&mut r, window_draws);
    app.hits.terminal = terminal;
    app.hits.panes = panes;
    app.hits.split_dividers = dividers;
    app.hits.confirm_yes = yes;
    app.hits.confirm_no = no;
    r
}

} // verus!
