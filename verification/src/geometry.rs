//! Rectangles of terminal cells, hit testing, and the split between sidebar and terminal.

use vstd::prelude::*;

verus! {

/// Columns taken by the expanded sidebar.
pub const SIDEBAR_WIDTH: u16 = 29;

/// Columns taken by the collapsed sidebar.
pub const COLLAPSED_WIDTH: u16 = 4;

/// Below this many columns the sidebar collapses by itself.
pub const MOBILE_THRESHOLD: u16 = 72;

/// A rectangle of terminal cells.
#[derive(Clone, Copy, Debug, PartialEq, Eq, Structural)]
pub struct Rect {
    pub x: u16,
    pub y: u16,
    pub width: u16,
    pub height: u16,
}

/// The rectangle at `x`, `y` whose size is cut so that its right and bottom coordinates stay
/// within `u16`.
pub open spec fn rect(x: int, y: int, width: int, height: int) -> Rect {
    Rect {
        x: x as u16,
        y: y as u16,
        width: (if x + width <= u16::MAX { width } else { u16::MAX - x }) as u16,
        height: (if y + height <= u16::MAX { height } else { u16::MAX - y }) as u16,
    }
}

pub open spec fn saturated(value: int) -> int {
    if value <= u16::MAX { value } else { u16::MAX as int }
}

/// `a - b`, or zero where that is negative.
pub open spec fn minus(a: int, b: int) -> int {
    if a >= b { a - b } else { 0 }
}

pub open spec fn lesser(a: int, b: int) -> int {
    if a <= b { a } else { b }
}

pub open spec fn greater(a: int, b: int) -> int {
    if a >= b { a } else { b }
}

impl Rect {
    /// The right and bottom coordinates fit in `u16`. Every rectangle made by `Rect::new` is so.
    pub open spec fn wf(self) -> bool {
        &&& self.x + self.width <= u16::MAX
        &&& self.y + self.height <= u16::MAX
    }

    /// The first column right of the rectangle.
    pub open spec fn right_edge(self) -> int {
        saturated(self.x + self.width)
    }

    /// The first row below the rectangle.
    pub open spec fn bottom_edge(self) -> int {
        saturated(self.y + self.height)
    }

    /// The cell at column `x` and row `y` lies in the rectangle.
    pub open spec fn holds(self, x: int, y: int) -> bool {
        &&& self.x <= x < self.right_edge()
        &&& self.y <= y < self.bottom_edge()
    }

    pub fn new(x: u16, y: u16, width: u16, height: u16) -> (r: Rect)
        ensures
            r == rect(x as int, y as int, width as int, height as int),
            r.wf(),
    {
        let width = if width <= u16::MAX - x { width } else { u16::MAX - x };
        let height = if height <= u16::MAX - y { height } else { u16::MAX - y };
        Rect { x, y, width, height }
    }

    pub fn right(self) -> (r: u16)
        ensures
            r == self.right_edge(),
    {
        self.x.saturating_add(self.width)
    }

    pub fn bottom(self) -> (r: u16)
        ensures
            r == self.bottom_edge(),
    {
        self.y.saturating_add(self.height)
    }
}

impl Default for Rect {
    fn default() -> (r: Rect)
        ensures
            r == rect(0, 0, 0, 0),
            r.wf(),
    {
        Rect::new(0, 0, 0, 0)
    }
}

/// Whether the cell at column `x` and row `y` lies in `area`. The right and the bottom edge are
/// outside.
pub fn contains(area: Rect, x: u16, y: u16) -> (r: bool)
    ensures
        r == area.holds(x as int, y as int),
{
    area.width > 0 && area.height > 0 && x >= area.x && x < area.right() && y >= area.y && y
        < area.bottom()
}

/// How many of `total` columns the left part of a split gets that asks for `length` and leaves at
/// least one column to the right part.
pub open spec fn left_columns(length: int, total: int) -> int {
    lesser(length, minus(total, 1))
}

/// The left part of `area` when it is split for a sidebar of `length` columns.
pub open spec fn sidebar_part(area: Rect, length: int) -> Rect {
    rect(area.x as int, area.y as int, left_columns(length, area.width as int), area.height as int)
}

/// The right part of `area` when it is split for a sidebar of `length` columns.
pub open spec fn terminal_part(area: Rect, length: int) -> Rect {
    rect(
        area.x + left_columns(length, area.width as int),
        area.y as int,
        area.width - left_columns(length, area.width as int),
        area.height as int,
    )
}

/// Calls `ratatui::layout::Layout::areas` on a horizontal layout of `Constraint::Length(length)`
/// and `Constraint::Min(1)`. The claim: both parts span the height of `area` and together cover
/// its width without a gap. `Min` has priority over `Length`, so the right part has at least one
/// column wherever `area` has any; beyond that the left part has `length` columns, and the right
/// part grows into what is left.
#[verifier::external_body]
pub(crate) fn split_columns(area: Rect, length: u16) -> (parts: (Rect, Rect))
    requires
        area.wf(),
    ensures
        parts.0 == sidebar_part(area, length as int),
        parts.1 == terminal_part(area, length as int),
{
    let outer = ratatui::layout::Rect {
        x: area.x, y: area.y, width: area.width, height: area.height,
    };
    let [left, right] = ratatui::layout::Layout::horizontal([
        ratatui::layout::Constraint::Length(length),
        ratatui::layout::Constraint::Min(1),
    ]).areas(outer);
    (
        Rect { x: left.x, y: left.y, width: left.width, height: left.height },
        Rect { x: right.x, y: right.y, width: right.width, height: right.height },
    )
}

/// Columns of the sidebar.
pub open spec fn sidebar_columns(collapsed: bool) -> int {
    if collapsed { COLLAPSED_WIDTH as int } else { SIDEBAR_WIDTH as int }
}

/// The part of `area` that is left to the terminal beside the sidebar.
pub open spec fn terminal_rect(area: Rect, collapsed: bool) -> Rect {
    terminal_part(area, sidebar_columns(collapsed))
}

/// The part of `area` that is left to the terminal beside the sidebar.
pub fn terminal_area(area: Rect, collapsed: bool) -> (r: Rect)
    requires
        area.wf(),
    ensures
        r == terminal_rect(area, collapsed),
        r.wf(),
{
    let width: u16 = if collapsed { COLLAPSED_WIDTH } else { SIDEBAR_WIDTH };
    let (_, terminal) = split_columns(area, width);
    terminal
}

/// The sidebar and the terminal lie side by side in `area`: every cell of `area` is in exactly one
/// of them, and no other cell is in either.
pub proof fn sidebar_and_terminal_tile_the_area(area: Rect, collapsed: bool, x: int, y: int)
    requires
        area.wf(),
    ensures
        area.holds(x, y) <==> (sidebar_part(area, sidebar_columns(collapsed)).holds(x, y)
            || terminal_rect(area, collapsed).holds(x, y)),
        !(sidebar_part(area, sidebar_columns(collapsed)).holds(x, y)
            && terminal_rect(area, collapsed).holds(x, y)),
{
}

/// A rectangle has the place and the size that it is made with, as far as its right and bottom
/// coordinates stay within `u16`.
pub proof fn rectangles_are_as_they_are_made(x: u16, y: u16, width: u16, height: u16)
    ensures
        ({
            let made = rect(x as int, y as int, width as int, height as int);
            &&& made.x == x && made.y == y
            &&& x + width <= u16::MAX ==> made.width == width
            &&& x + width > u16::MAX ==> made.x + made.width == u16::MAX
            &&& y + height <= u16::MAX ==> made.height == height
            &&& y + height > u16::MAX ==> made.y + made.height == u16::MAX
        }),
{
}

} // verus!
