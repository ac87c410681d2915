//! The screen of a terminal: its cells, its scrolling and its mouse mode. The screen itself is kept
//! by `vt100`.

use crate::geometry;
use crate::geometry::Rect;
use crate::style::{Color, Style};
use crate::terminal;
use crate::terminal::{encode_mouse_wheel, MouseProtocolEncoding, MouseProtocolMode};
use vstd::prelude::*;

verus! {

/// The state of a terminal, as `vt100` keeps it.
#[verifier::external_type_specification]
#[verifier::external_body]
pub struct ExScreen(vt100::Screen);

/// A color as a terminal program sets it.
#[derive(Clone, Copy, Debug, PartialEq, Eq, Structural)]
pub enum VtColor {
    Default,
    Idx(u8),
    Rgb(u8, u8, u8),
}

/// A cell of a screen.
pub struct ScreenCell {
    pub contents: String,
    pub fg: VtColor,
    pub bg: VtColor,
    pub bold: bool,
    pub dim: bool,
    pub italic: bool,
    pub underline: bool,
    pub inverse: bool,
}

/// A cell of a screen with its text as a sequence of characters.
pub struct ScreenCellView {
    pub contents: Seq<char>,
    pub fg: VtColor,
    pub bg: VtColor,
    pub bold: bool,
    pub dim: bool,
    pub italic: bool,
    pub underline: bool,
    pub inverse: bool,
}

impl View for ScreenCell {
    type V = ScreenCellView;

    open spec fn view(&self) -> ScreenCellView {
        ScreenCellView {
            contents: self.contents@,
            fg: self.fg,
            bg: self.bg,
            bold: self.bold,
            dim: self.dim,
            italic: self.italic,
            underline: self.underline,
            inverse: self.inverse,
        }
    }
}

/// The cells that are in view while the view is scrolled back by `rows`, by row and column.
pub uninterp spec fn screen_view(screen: vt100::Screen, rows: usize) -> Map<
    (u16, u16),
    ScreenCellView,
>;

/// The rows and columns of a screen.
pub uninterp spec fn screen_size(screen: vt100::Screen) -> (u16, u16);

/// How many rows the view is scrolled back.
pub uninterp spec fn screen_scrollback(screen: vt100::Screen) -> usize;

/// How many rows have been scrolled out and are kept.
pub uninterp spec fn screen_history(screen: vt100::Screen) -> usize;

/// How many rows that are scrolled out are kept at most.
pub uninterp spec fn screen_limit(screen: vt100::Screen) -> usize;

/// Whether the screen takes any output, whatever its bytes: none makes the emulator panic.
pub uninterp spec fn screen_whole(screen: vt100::Screen) -> bool;

/// The mouse reports that the program in the terminal wants.
pub uninterp spec fn screen_mouse_mode(screen: vt100::Screen) -> MouseProtocolMode;

/// The encoding in which the program in the terminal wants them.
pub uninterp spec fn screen_mouse_encoding(screen: vt100::Screen) -> MouseProtocolEncoding;

/// Whether the cursor is hidden.
pub uninterp spec fn screen_cursor_hidden(screen: vt100::Screen) -> bool;

/// The row and column of the cursor.
pub uninterp spec fn screen_cursor(screen: vt100::Screen) -> (u16, u16);

/// The cells in view, by row and column.
pub open spec fn screen_cells(screen: vt100::Screen) -> Map<(u16, u16), ScreenCellView> {
    screen_view(screen, screen_scrollback(screen))
}

/// A cell that nothing was written to.
pub open spec fn empty_cell() -> ScreenCellView {
    ScreenCellView {
        contents: Seq::empty(),
        fg: VtColor::Default,
        bg: VtColor::Default,
        bold: false,
        dim: false,
        italic: false,
        underline: false,
        inverse: false,
    }
}

/// The cells cut or filled up with empty ones to the given rows and columns.
pub open spec fn fitted(cells: Map<(u16, u16), ScreenCellView>, rows: u16, cols: u16) -> Map<
    (u16, u16),
    ScreenCellView,
> {
    Map::new(
        |place: (u16, u16)| place.0 < rows && place.1 < cols,
        |place: (u16, u16)|
            if cells.contains_key(place) {
                cells[place]
            } else {
                empty_cell()
            },
    )
}

/// The cells that are in view, while the view is scrolled back by `offset`, after a screen was
/// resized. The rows that were scrolled out come first and are as long as they were. Below them
/// stand the other rows, cut or filled up.
pub open spec fn resized_view(screen: vt100::Screen, rows: u16, cols: u16, offset: usize) -> Map<
    (u16, u16),
    ScreenCellView,
> {
    let back = geometry::lesser(offset as int, screen_history(screen) as int);
    let below = fitted(screen_view(screen, 0), rows, cols);
    Map::new(
        |place: (u16, u16)|
            place.0 < rows && if place.0 < back {
                screen_view(screen, (back - place.0) as usize).contains_key((0, place.1))
            } else {
                below.contains_key(((place.0 - back) as u16, place.1))
            },
        |place: (u16, u16)|
            if place.0 < back {
                screen_view(screen, (back - place.0) as usize)[(0, place.1)]
            } else {
                below[((place.0 - back) as u16, place.1)]
            },
    )
}

/// A size in which any output fits: there is a row to wrap to, a row holds the widest character, and
/// the tab stop behind a row is a number of 16 bits.
pub open spec fn roomy(rows: u16, cols: u16) -> bool {
    rows > 1 && 2 < cols < 65_528
}

/// A place in a screen, moved to the nearest one in a screen of the given size.
pub open spec fn moved_inside(place: (u16, u16), rows: u16, cols: u16) -> (u16, u16) {
    (
        if place.0 < rows { place.0 } else { (rows - 1) as u16 },
        if place.1 < cols { place.1 } else { (cols - 1) as u16 },
    )
}

/// Calls `vt100::Screen::cell` and reads the contents, colors and attributes of the cell. The
/// claim: the result is the cell in view at that row and column, if there is one.
#[verifier::external_body]
fn cell_at(screen: &vt100::Screen, row: u16, col: u16) -> (r: Option<ScreenCell>)
    ensures
        match r {
            Some(cell) => screen_cells(*screen).contains_key((row, col)) && screen_cells(
                *screen,
            )[(row, col)] == cell@,
            None => !screen_cells(*screen).contains_key((row, col)),
        },
{
    let color = |color: vt100::Color| match color {
        vt100::Color::Default => VtColor::Default,
        vt100::Color::Idx(i) => VtColor::Idx(i),
        vt100::Color::Rgb(r, g, b) => VtColor::Rgb(r, g, b),
    };
    let cell = screen.cell(row, col)?;
    Some(
        ScreenCell {
            contents: cell.contents().to_string(), fg: color(cell.fgcolor()), bg: color(cell.bgcolor()), bold: cell.bold(),
            dim: cell.dim(), italic: cell.italic(), underline: cell.underline(), inverse: cell.inverse(),
        },
    )
}

/// Calls `vt100::Screen::size`: the rows and columns of the screen.
#[verifier::external_body]
fn size_of_screen(screen: &vt100::Screen) -> (r: (u16, u16))
    ensures
        r == screen_size(*screen),
{
    screen.size()
}

/// Calls `vt100::Screen::set_size`. The claim: the screen has the given rows and columns
/// afterwards, and the cursor is moved inside; the number of rows scrolled out, the scroll position,
/// the mouse mode and the visibility of the cursor do not change. The cells inside the new size stay
/// and the others are empty; the rows that were scrolled out are not touched. A whole screen stays
/// whole if the new size is roomy and no columns are cut off. Whether it does elsewhere is not said:
/// half of a wide character may be left at the edge. Both numbers are at least one: on zero the call
/// does not return.
#[verifier::external_body]
fn set_screen_size(screen: &mut vt100::Screen, rows: u16, cols: u16)
    requires
        rows > 0,
        cols > 0,
    ensures
        screen_size(*final(screen)) == (rows, cols),
        screen_cursor(*final(screen)) == moved_inside(screen_cursor(*old(screen)), rows, cols),
        forall|offset: usize| #[trigger]
            screen_view(*final(screen), offset) == resized_view(*old(screen), rows, cols, offset),
        screen_scrollback(*final(screen)) == screen_scrollback(*old(screen)),
        screen_history(*final(screen)) == screen_history(*old(screen)),
        screen_limit(*final(screen)) == screen_limit(*old(screen)),
        screen_mouse_mode(*final(screen)) == screen_mouse_mode(*old(screen)),
        screen_mouse_encoding(*final(screen)) == screen_mouse_encoding(*old(screen)),
        screen_cursor_hidden(*final(screen)) == screen_cursor_hidden(*old(screen)),
        screen_whole(*old(screen)) && roomy(rows, cols) && screen_size(*old(screen)).1 <= cols
            ==> screen_whole(*final(screen)),
{
    screen.set_size(rows, cols);
}

/// Calls `vt100::Screen::scrollback`: how many rows the view is scrolled back.
#[verifier::external_body]
fn scrollback_of(screen: &vt100::Screen) -> (r: usize)
    ensures
        r == screen_scrollback(*screen),
{
    screen.scrollback()
}

/// Calls `vt100::Screen::set_scrollback`. The claim: the view is scrolled back by the given number
/// of rows, or by as many as are kept. Nothing else changes: each position shows the cells that it
/// showed before.
#[verifier::external_body]
fn set_scrollback(screen: &mut vt100::Screen, rows: usize)
    ensures
        screen_scrollback(*final(screen)) == geometry::lesser(
            rows as int,
            screen_history(*old(screen)) as int,
        ),
        forall|offset: usize| #[trigger]
            screen_view(*final(screen), offset) == screen_view(*old(screen), offset),
        screen_history(*final(screen)) == screen_history(*old(screen)),
        screen_limit(*final(screen)) == screen_limit(*old(screen)),
        screen_whole(*final(screen)) == screen_whole(*old(screen)),
        screen_size(*final(screen)) == screen_size(*old(screen)),
        screen_mouse_mode(*final(screen)) == screen_mouse_mode(*old(screen)),
        screen_mouse_encoding(*final(screen)) == screen_mouse_encoding(*old(screen)),
        screen_cursor_hidden(*final(screen)) == screen_cursor_hidden(*old(screen)),
        screen_cursor(*final(screen)) == screen_cursor(*old(screen)),
{
    screen.set_scrollback(rows);
}

/// Calls `vt100::Screen::mouse_protocol_mode`: the mouse reports that are wanted.
#[verifier::external_body]
fn mouse_mode_of(screen: &vt100::Screen) -> (r: MouseProtocolMode)
    ensures
        r == screen_mouse_mode(*screen),
{
    match screen.mouse_protocol_mode() {
        vt100::MouseProtocolMode::None => MouseProtocolMode::Off,
        vt100::MouseProtocolMode::Press => MouseProtocolMode::Press,
        vt100::MouseProtocolMode::PressRelease => MouseProtocolMode::PressRelease,
        vt100::MouseProtocolMode::ButtonMotion => MouseProtocolMode::ButtonMotion,
        vt100::MouseProtocolMode::AnyMotion => MouseProtocolMode::AnyMotion,
    }
}

/// Calls `vt100::Screen::mouse_protocol_encoding`: the encoding of mouse reports.
#[verifier::external_body]
fn mouse_encoding_of(screen: &vt100::Screen) -> (r: MouseProtocolEncoding)
    ensures
        r == screen_mouse_encoding(*screen),
{
    match screen.mouse_protocol_encoding() {
        vt100::MouseProtocolEncoding::Default => MouseProtocolEncoding::Default,
        vt100::MouseProtocolEncoding::Utf8 => MouseProtocolEncoding::Utf8,
        vt100::MouseProtocolEncoding::Sgr => MouseProtocolEncoding::Sgr,
    }
}

/// Calls `vt100::Screen::hide_cursor`: whether the cursor is hidden.
#[verifier::external_body]
fn cursor_hidden(screen: &vt100::Screen) -> (r: bool)
    ensures
        r == screen_cursor_hidden(*screen),
{
    screen.hide_cursor()
}

/// Calls `vt100::Screen::cursor_position`: the row and column of the cursor.
#[verifier::external_body]
fn cursor_of(screen: &vt100::Screen) -> (r: (u16, u16))
    ensures
        r == screen_cursor(*screen),
{
    screen.cursor_position()
}

/// The color in which a terminal color is drawn.
pub open spec fn drawn_color(color: VtColor) -> Color {
    match color {
        VtColor::Default => Color::Reset,
        VtColor::Idx(i) => Color::Indexed(i),
        VtColor::Rgb(r, g, b) => Color::Rgb(r, g, b),
    }
}

pub fn vt_color(color: VtColor) -> (r: Color)
    ensures
        r == drawn_color(color),
{
    match color {
        VtColor::Default => Color::Reset,
        VtColor::Idx(i) => Color::Indexed(i),
        VtColor::Rgb(r, g, b) => Color::Rgb(r, g, b),
    }
}

/// A symbol to be drawn in one cell.
pub struct DrawnCell {
    pub x: u16,
    pub y: u16,
    pub symbol: String,
    pub style: Style,
}

/// A symbol to be drawn, with its text as a sequence of characters.
pub struct DrawnCellView {
    pub x: u16,
    pub y: u16,
    pub symbol: Seq<char>,
    pub style: Style,
}

impl View for DrawnCell {
    type V = DrawnCellView;

    open spec fn view(&self) -> DrawnCellView {
        DrawnCellView { x: self.x, y: self.y, symbol: self.symbol@, style: self.style }
    }
}

/// The views of a list of drawn cells.
pub open spec fn drawn_views(cells: Seq<DrawnCell>) -> Seq<DrawnCellView> {
    Seq::new(cells.len(), |i: int| cells[i]@)
}

/// The style of a cell of a screen.
pub open spec fn cell_style(cell: ScreenCellView) -> Style {
    Style {
        fg: Some(drawn_color(cell.fg)),
        bg: Some(drawn_color(cell.bg)),
        bold: cell.bold,
        dim: cell.dim,
        italic: cell.italic,
        underlined: cell.underline,
        reversed: cell.inverse,
    }
}

/// How a cell of a screen is drawn. An empty cell is drawn as a space.
pub open spec fn drawn_cell(cell: ScreenCellView, x: u16, y: u16) -> DrawnCellView {
    DrawnCellView {
        x,
        y,
        symbol: if cell.contents.len() == 0 { " "@ } else { cell.contents },
        style: cell_style(cell),
    }
}

pub fn draw_cell(cell: &ScreenCell, x: u16, y: u16) -> (r: DrawnCell)
    ensures
        r@ == drawn_cell(cell@, x, y),
{
    let symbol = if cell.contents.as_str().is_empty() {
        " ".to_owned()
    } else {
        cell.contents.clone()
    };
    DrawnCell {
        x,
        y,
        symbol,
        style: Style {
            fg: Some(vt_color(cell.fg)),
            bg: Some(vt_color(cell.bg)),
            bold: cell.bold,
            dim: cell.dim,
            italic: cell.italic,
            underlined: cell.underline,
            reversed: cell.inverse,
        },
    }
}

/// The first `count` columns of a row of a screen as they are drawn in an area.
pub open spec fn drawn_row(
    cells: Map<(u16, u16), ScreenCellView>,
    area: Rect,
    row: int,
    count: int,
) -> Seq<DrawnCellView>
    decreases count,
{
    if count <= 0 {
        Seq::empty()
    } else {
        let rest = drawn_row(cells, area, row, count - 1);
        let place = (row as u16, (count - 1) as u16);
        if cells.contains_key(place) {
            rest.push(
                drawn_cell(cells[place], (area.x + count - 1) as u16, (area.y + row) as u16),
            )
        } else {
            rest
        }
    }
}

/// The first `count` rows of a screen as they are drawn in an area, row by row.
pub open spec fn drawn_rows(
    cells: Map<(u16, u16), ScreenCellView>,
    area: Rect,
    count: int,
    cols: int,
) -> Seq<DrawnCellView>
    decreases count,
{
    if count <= 0 {
        Seq::empty()
    } else {
        drawn_rows(cells, area, count - 1, cols) + drawn_row(cells, area, count - 1, cols)
    }
}

/// What is drawn of a screen in an area: its upper left part, as far as the area reaches.
pub open spec fn drawn_screen(
    cells: Map<(u16, u16), ScreenCellView>,
    size: (u16, u16),
    area: Rect,
) -> Seq<DrawnCellView> {
    drawn_rows(
        cells,
        area,
        geometry::lesser(area.height as int, size.0 as int),
        geometry::lesser(area.width as int, size.1 as int),
    )
}

/// What is drawn of a screen in an area.
pub fn terminal_view(screen: &vt100::Screen, area: Rect) -> (r: Vec<DrawnCell>)
    requires
        area.wf(),
    ensures
        drawn_views(r@) == drawn_screen(screen_cells(*screen), screen_size(*screen), area),
{
    let ghost cells = screen_cells(*screen);
    let (screen_rows, screen_cols) = size_of_screen(screen);
    let rows: u16 = if area.height <= screen_rows { area.height } else { screen_rows };
    let cols: u16 = if area.width <= screen_cols { area.width } else { screen_cols };
    let mut r: Vec<DrawnCell> = Vec::new();
    assert(drawn_views(r@) == drawn_rows(cells, area, 0, cols as int));
    for row in 0..rows
        invariant
            area.wf(),
            rows <= area.height,
            cols <= area.width,
            cells == screen_cells(*screen),
            drawn_views(r@) == drawn_rows(cells, area, row as int, cols as int),
    {
        let ghost above = drawn_rows(cells, area, row as int, cols as int);
        assert(above + drawn_row(cells, area, row as int, 0) == above);
        for col in 0..cols
            invariant
                area.wf(),
                row < rows <= area.height,
                cols <= area.width,
                cells == screen_cells(*screen),
                drawn_views(r@) == above + drawn_row(cells, area, row as int, col as int),
        {
            let ghost before = drawn_views(r@);
            if let Some(cell) = cell_at(screen, row, col) {
                let drawn = draw_cell(&cell, area.x + col, area.y + row);
                r.push(drawn);
                assert(drawn_views(r@) == before.push(drawn@));
            }
            assert(drawn_views(r@) == above + drawn_row(cells, area, row as int, col as int + 1));
        }
    }
    r
}

/// Where the cursor of a screen stands in an area, if it is shown and lies in the area.
pub open spec fn cursor_place(
    hidden: bool,
    position: (u16, u16),
    area: Rect,
) -> Option<(u16, u16)> {
    if !hidden && position.1 < area.width && position.0 < area.height {
        Some(((area.x + position.1) as u16, (area.y + position.0) as u16))
    } else {
        None
    }
}

/// Where the cursor of a screen stands in an area, if it is shown and lies in the area.
pub fn pane_cursor(screen: &vt100::Screen, area: Rect) -> (r: Option<(u16, u16)>)
    requires
        area.wf(),
    ensures
        r == cursor_place(screen_cursor_hidden(*screen), screen_cursor(*screen), area),
{
    if cursor_hidden(screen) {
        return None;
    }
    let (row, col) = cursor_of(screen);
    if col < area.width && row < area.height {
        Some((area.x + col, area.y + row))
    } else {
        None
    }
}

/// The rows and columns of a terminal in an area. An area without cells gives none.
pub open spec fn terminal_size(area: Rect) -> Option<(u16, u16)> {
    if area.width > 0 && area.height > 0 {
        Some((area.height, area.width))
    } else {
        None
    }
}

/// The rows and columns that a terminal gets in an area, if it has any cells.
pub fn pane_size(area: Rect) -> (r: Option<(u16, u16)>)
    ensures
        r == terminal_size(area),
{
    if area.width == 0 || area.height == 0 {
        None
    } else {
        Some((area.height, area.width))
    }
}

/// Resizes a screen to an area. An area without cells changes nothing. Tells whether the screen
/// was resized, so that its terminal is to be resized as well.
pub fn resize_screen(screen: &mut vt100::Screen, area: Rect) -> (r: bool)
    ensures
        r == (area.width > 0 && area.height > 0),
        !r ==> *final(screen) == *old(screen),
        r ==> screen_size(*final(screen)) == (area.height, area.width),
        r ==> screen_cursor(*final(screen)) == moved_inside(
            screen_cursor(*old(screen)),
            area.height,
            area.width,
        ),
        r ==> screen_view(*final(screen), 0) == fitted(
            screen_view(*old(screen), 0),
            area.height,
            area.width,
        ),
        r ==> forall|offset: usize| #[trigger]
            screen_view(*final(screen), offset) == resized_view(
                *old(screen),
                area.height,
                area.width,
                offset,
            ),
        screen_scrollback(*final(screen)) == screen_scrollback(*old(screen)),
        screen_history(*final(screen)) == screen_history(*old(screen)),
        screen_limit(*final(screen)) == screen_limit(*old(screen)),
        screen_mouse_mode(*final(screen)) == screen_mouse_mode(*old(screen)),
        screen_mouse_encoding(*final(screen)) == screen_mouse_encoding(*old(screen)),
        screen_cursor_hidden(*final(screen)) == screen_cursor_hidden(*old(screen)),
        screen_whole(*old(screen)) && roomy(area.height, area.width) && screen_size(*old(screen)).1
            <= area.width ==> screen_whole(*final(screen)),
{
    match pane_size(area) {
        Some((rows, cols)) => {
            let ghost before = *screen;
            set_screen_size(screen, rows, cols);
            assert(resized_view(before, rows, cols, 0) =~= fitted(
                screen_view(before, 0),
                rows,
                cols,
            ));
            true
        },
        None => false,
    }
}

/// A scroll position moved by `delta` rows, within the range of `usize`.
pub open spec fn scrolled(current: usize, delta: isize) -> usize {
    if current + delta < 0 {
        0
    } else if current + delta > usize::MAX {
        usize::MAX
    } else {
        (current + delta) as usize
    }
}

pub fn scroll_target(current: usize, delta: isize) -> (r: usize)
    ensures
        r == scrolled(current, delta),
{
    let next: i128 = current as i128 + delta as i128;
    if next < 0 {
        0
    } else if next > usize::MAX as i128 {
        usize::MAX
    } else {
        next as usize
    }
}

/// The screen `after` is `before` with its view scrolled back by `delta` rows, or forward if that is
/// negative, as far as there are rows.
pub open spec fn is_scrolled(before: vt100::Screen, after: vt100::Screen, delta: isize) -> bool {
    &&& screen_scrollback(after) == geometry::lesser(
        scrolled(screen_scrollback(before), delta) as int,
        screen_history(before) as int,
    )
    &&& forall|offset: usize| #[trigger]
        screen_view(after, offset) == screen_view(before, offset)
    &&& screen_history(after) == screen_history(before)
    &&& screen_limit(after) == screen_limit(before)
    &&& screen_whole(after) == screen_whole(before)
    &&& screen_size(after) == screen_size(before)
    &&& screen_mouse_mode(after) == screen_mouse_mode(before)
    &&& screen_mouse_encoding(after) == screen_mouse_encoding(before)
    &&& screen_cursor_hidden(after) == screen_cursor_hidden(before)
    &&& screen_cursor(after) == screen_cursor(before)
}

/// Scrolls the view of a screen back by `delta` rows, or forward if it is negative, as far as there
/// are rows.
pub fn scroll_viewport(screen: &mut vt100::Screen, delta: isize)
    ensures
        is_scrolled(*old(screen), *final(screen), delta),
{
    let next = scroll_target(scrollback_of(screen), delta);
    set_scrollback(screen, next);
}

/// The report of a wheel step, if mouse reports are wanted.
pub open spec fn wheel_reply(
    mode: MouseProtocolMode,
    encoding: MouseProtocolEncoding,
    up: bool,
    column: u16,
    row: u16,
) -> Option<Seq<u8>> {
    if mode == MouseProtocolMode::Off {
        None
    } else {
        Some(terminal::wheel_bytes(encoding, up, column, row))
    }
}

pub fn wheel_report(
    mode: MouseProtocolMode,
    encoding: MouseProtocolEncoding,
    up: bool,
    column: u16,
    row: u16,
) -> (r: Option<Vec<u8>>)
    ensures
        terminal::bytes_of(r) == wheel_reply(mode, encoding, up, column, row),
{
    if mode == MouseProtocolMode::Off {
        return None;
    }
    Some(encode_mouse_wheel(encoding, up, column, row))
}

/// What a wheel step in a pane sends to the program in its terminal, if it wants mouse reports.
pub fn wheel_input(screen: &vt100::Screen, up: bool, column: u16, row: u16) -> (r: Option<Vec<u8>>)
    ensures
        terminal::bytes_of(r) == wheel_reply(
            screen_mouse_mode(*screen),
            screen_mouse_encoding(*screen),
            up,
            column,
            row,
        ),
{
    wheel_report(mouse_mode_of(screen), mouse_encoding_of(screen), up, column, row)
}

/// How many rows a wheel step scrolls.
pub const WHEEL_ROWS: isize = 3;

/// The rows by which a wheel step scrolls a view back.
pub open spec fn wheel_rows(up: bool) -> isize {
    if up { WHEEL_ROWS } else { (-WHEEL_ROWS) as isize }
}

/// Takes a wheel step in a pane: tells what it sends to the program in the terminal, if that wants
/// mouse reports, and scrolls the view.
pub fn turn_wheel(screen: &mut vt100::Screen, up: bool, column: u16, row: u16) -> (r: Option<
    Vec<u8>,
>)
    ensures
        terminal::bytes_of(r) == wheel_reply(
            screen_mouse_mode(*old(screen)),
            screen_mouse_encoding(*old(screen)),
            up,
            column,
            row,
        ),
        is_scrolled(*old(screen), *final(screen), wheel_rows(up)),
{
    let report = wheel_input(screen, up, column, row);
    scroll_viewport(screen, if up { WHEEL_ROWS } else { -WHEEL_ROWS });
    report
}

/// Scrolling forward by as many rows as one has scrolled back shows the same cells again, if there
/// were that many rows to scroll back to.
pub proof fn scrolling_forward_undoes_scrolling_back(
    before: vt100::Screen,
    back: vt100::Screen,
    after: vt100::Screen,
    rows: isize,
)
    requires
        0 <= rows,
        screen_scrollback(before) + rows <= screen_history(before),
        is_scrolled(before, back, rows),
        is_scrolled(back, after, (-rows) as isize),
    ensures
        screen_cells(after) == screen_cells(before),
        screen_scrollback(after) == screen_scrollback(before),
{
}

/// The view never leaves the rows that are kept: scrolling back far enough shows the oldest ones,
/// and scrolling forward far enough the newest.
pub proof fn scrolling_stays_within_the_rows(
    before: vt100::Screen,
    after: vt100::Screen,
    delta: isize,
)
    requires
        is_scrolled(before, after, delta),
    ensures
        0 <= screen_scrollback(after) <= screen_history(after),
        delta >= screen_history(before) ==> screen_scrollback(after) == screen_history(before),
        screen_scrollback(before) + delta <= 0 ==> screen_scrollback(after) == 0,
{
}

} // verus!
