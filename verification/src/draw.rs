//! What is drawn on the screen.

use crate::geometry::Rect;
use crate::style;
use crate::style::Style;
use vstd::prelude::*;

verus! {

/// A text in one style.
pub struct Span {
    pub text: String,
    pub style: Style,
}

/// A text in one style, as a sequence of characters.
#[verifier::ext_equal]
pub struct SpanView {
    pub text: Seq<char>,
    pub style: Style,
}

impl View for Span {
    type V = SpanView;

    open spec fn view(&self) -> SpanView {
        SpanView { text: self.text@, style: self.style }
    }
}

/// A frame around lines of text. An empty title is not shown.
pub struct Frame {
    pub title: String,
    pub style: Style,
}

/// A frame with its title as a sequence of characters.
#[verifier::ext_equal]
pub struct FrameView {
    pub title: Seq<char>,
    pub style: Style,
}

/// Lines of text in an area.
pub struct Paragraph {
    pub area: Rect,
    pub lines: Vec<Vec<Span>>,
    pub style: Style,
    /// The lines end at the right edge.
    pub right: bool,
    pub frame: Option<Frame>,
}

/// Lines of text in an area, as sequences.
#[verifier::ext_equal]
pub struct ParagraphView {
    pub area: Rect,
    pub lines: Seq<Seq<SpanView>>,
    pub style: Style,
    pub right: bool,
    pub frame: Option<FrameView>,
}

/// The views of the texts of a line.
pub open spec fn line_view(line: Seq<Span>) -> Seq<SpanView> {
    Seq::new(line.len(), |i: int| line[i]@)
}

/// The views of lines.
pub open spec fn line_views(lines: Seq<Vec<Span>>) -> Seq<Seq<SpanView>> {
    Seq::new(lines.len(), |i: int| line_view(lines[i]@))
}

/// The view of an optional frame.
pub open spec fn frame_view(frame: Option<Frame>) -> Option<FrameView> {
    match frame {
        Some(frame) => Some(FrameView { title: frame.title@, style: frame.style }),
        None => None,
    }
}

impl View for Paragraph {
    type V = ParagraphView;

    open spec fn view(&self) -> ParagraphView {
        ParagraphView {
            area: self.area,
            lines: line_views(self.lines@),
            style: self.style,
            right: self.right,
            frame: frame_view(self.frame),
        }
    }
}

/// One step of drawing the screen.
pub enum Draw {
    /// Puts a character into a cell.
    Symbol { x: u16, y: u16, symbol: char, style: Style },
    /// Writes lines of text.
    Text(Paragraph),
    /// Empties an area.
    Clear(Rect),
    /// Shows the screen of a session in an area, and its cursor if asked to.
    Terminal { index: usize, area: Rect, cursor: bool },
    /// Places the cursor.
    Cursor { x: u16, y: u16 },
}

/// One step of drawing the screen, over mathematical values.
#[verifier::ext_equal]
pub enum DrawView {
    Symbol { x: int, y: int, symbol: char, style: Style },
    Text(ParagraphView),
    Clear(Rect),
    Terminal { index: usize, area: Rect, cursor: bool },
    Cursor { x: int, y: int },
}

impl View for Draw {
    type V = DrawView;

    open spec fn view(&self) -> DrawView {
        match self {
            Draw::Symbol { x, y, symbol, style } => DrawView::Symbol {
                x: *x as int,
                y: *y as int,
                symbol: *symbol,
                style: *style,
            },
            Draw::Text(paragraph) => DrawView::Text(paragraph@),
            Draw::Clear(area) => DrawView::Clear(*area),
            Draw::Terminal { index, area, cursor } => DrawView::Terminal {
                index: *index,
                area: *area,
                cursor: *cursor,
            },
            Draw::Cursor { x, y } => DrawView::Cursor { x: *x as int, y: *y as int },
        }
    }
}

/// The views of steps.
pub open spec fn draw_views(list: Seq<Draw>) -> Seq<DrawView> {
    Seq::new(list.len(), |i: int| list[i]@)
}

/// A text in one style.
pub open spec fn span(text: Seq<char>, style: Style) -> SpanView {
    SpanView { text, style }
}

/// One line of text that starts at the left edge.
pub open spec fn line_at(area: Rect, line: Seq<SpanView>, style: Style) -> DrawView {
    DrawView::Text(ParagraphView { area, lines: seq![line], style, right: false, frame: None })
}

/// One text that ends at the right edge.
pub open spec fn right_text(area: Rect, text: Seq<char>, style: Style) -> DrawView {
    DrawView::Text(
        ParagraphView {
            area,
            lines: seq![seq![span(text, style)]],
            style: style::plain_style(),
            right: true,
            frame: None,
        },
    )
}

/// Adds a step to the end of a list.
pub(crate) fn push(out: &mut Vec<Draw>, step: Draw)
    ensures
        draw_views(final(out)@) == draw_views(old(out)@).push(step@),
{
    let ghost before = out@;
    out.push(step);
    assert(draw_views(out@) =~= draw_views(before).push(step@));
}

/// Moves all steps of a list to the end of another one.
pub(crate) fn append(out: &mut Vec<Draw>, more: Vec<Draw>)
    ensures
        draw_views(final(out)@) == draw_views(old(out)@) + draw_views(more@),
{
    let ghost before = out@;
    let ghost added = more@;
    let mut more = more;
    out.append(&mut more);
    assert(out@ =~= before + added);
    assert(draw_views(out@) =~= draw_views(before) + draw_views(added));
}

pub(crate) fn styled(text: &str, style: Style) -> (r: Span)
    ensures
        r@ == span(text@, style),
{
    Span { text: text.to_owned(), style }
}

/// A line of one text.
pub(crate) fn line_of(only: Span) -> (r: Vec<Span>)
    ensures
        line_view(r@) == seq![only@],
{
    let mut r: Vec<Span> = Vec::new();
    r.push(only);
    assert(line_view(r@) =~= seq![only@]);
    r
}

/// A line of two texts.
pub(crate) fn line_of_two(first: Span, second: Span) -> (r: Vec<Span>)
    ensures
        line_view(r@) == seq![first@, second@],
{
    let mut r: Vec<Span> = Vec::new();
    r.push(first);
    r.push(second);
    assert(line_view(r@) =~= seq![first@, second@]);
    r
}

pub(crate) fn text_line(area: Rect, line: Vec<Span>, style: Style) -> (r: Draw)
    ensures
        r@ == line_at(area, line_view(line@), style),
{
    let ghost view = line_view(line@);
    let mut lines: Vec<Vec<Span>> = Vec::new();
    lines.push(line);
    assert(line_views(lines@) =~= seq![view]);
    Draw::Text(Paragraph { area, lines, style, right: false, frame: None })
}

pub(crate) fn text_at_right(area: Rect, text: &str, style: Style) -> (r: Draw)
    ensures
        r@ == right_text(area, text@, style),
{
    let line = line_of(styled(text, style));
    let mut lines: Vec<Vec<Span>> = Vec::new();
    lines.push(line);
    assert(line_views(lines@) =~= seq![seq![span(text@, style)]]);
    Draw::Text(Paragraph { area, lines, style: Style::plain(), right: true, frame: None })
}

} // verus!
