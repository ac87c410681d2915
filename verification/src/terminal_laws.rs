//! What keys and wheel steps send to a terminal, and what is shown of its screen.

use crate::app;
use crate::app::AppView;
use crate::events::{KeyCode, KeyEvent, KeyModifiers};
use crate::geometry;
use crate::geometry::Rect;
use crate::screen;
use crate::screen::{DrawnCellView, ScreenCellView, VtColor};
use crate::style::Color;
use crate::terminal;
use crate::terminal::{MouseProtocolEncoding, MouseProtocolMode};
use crate::text;
use vstd::prelude::*;
use vstd::utf8;

verus! {

/// The bytes of a text of ASCII characters.
pub open spec fn ascii(s: Seq<char>) -> Seq<u8> {
    Seq::new(s.len(), |i: int| s[i] as u8)
}

/// The value of a sequence of decimal digits.
pub open spec fn value(bytes: Seq<u8>) -> int
    decreases bytes.len(),
{
    if bytes.len() == 0 {
        0
    } else {
        10 * value(bytes.drop_last()) + (bytes.last() - 0x30)
    }
}

/// The bytes are the decimal digits of a number, the first of them not a zero unless it is the only
/// one.
pub open spec fn is_number(bytes: Seq<u8>, n: int) -> bool {
    &&& bytes.len() > 0
    &&& forall|i: int| 0 <= i < bytes.len() ==> 0x30 <= #[trigger] bytes[i] <= 0x39
    &&& bytes.len() > 1 ==> bytes[0] != 0x30
    &&& value(bytes) == n
}

/// A number in decimal has the digits of that number.
pub proof fn decimal_numbers_have_their_value(n: nat)
    ensures
        is_number(text::decimal_ascii(n), n as int),
    decreases n,
{
    let bytes = text::decimal_ascii(n);
    reveal_with_fuel(value, 2);
    if n >= 10 {
        decimal_numbers_have_their_value(n / 10);
        let front = text::decimal_ascii(n / 10);
        assert(bytes.drop_last() =~= front);
        assert(bytes.last() == 0x30 + n % 10);
        assert(front[0] == bytes[0]);
        if front.len() == 1 {
            assert(front.drop_last() =~= Seq::empty());
            assert(value(front) == front[0] - 0x30);
        }
        assert forall|i: int| 0 <= i < bytes.len() implies 0x30 <= #[trigger] bytes[i] <= 0x39 by {
            if i < front.len() {
                assert(bytes[i] == front[i]);
            }
        }
    } else {
        assert(bytes.drop_last() =~= Seq::empty());
    }
}

/// A number is shown with the same digits as it is sent with.
pub proof fn shown_numbers_have_the_same_digits(n: nat)
    ensures
        text::decimal(n).len() == text::decimal_ascii(n).len(),
        forall|i: int|
            0 <= i < text::decimal(n).len() ==> (#[trigger] text::decimal(n)[i]) as int
                == text::decimal_ascii(n)[i],
    decreases n,
{
    if n >= 10 {
        shown_numbers_have_the_same_digits(n / 10);
    }
}

/// The keys for editing and moving send the sequences of xterm.
pub proof fn editing_keys_send_their_sequences(key: KeyEvent)
    requires
        !key.modifiers.alt,
    ensures
        key.code == KeyCode::Enter ==> terminal::key_bytes(key) == Some(ascii("\r"@)),
        key.code == KeyCode::Tab ==> terminal::key_bytes(key) == Some(ascii("\t"@)),
        key.code == KeyCode::BackTab ==> terminal::key_bytes(key) == Some(ascii("\x1b[Z"@)),
        key.code == KeyCode::Backspace ==> terminal::key_bytes(key) == Some(ascii("\x7f"@)),
        key.code == KeyCode::Esc ==> terminal::key_bytes(key) == Some(ascii("\x1b"@)),
        key.code == KeyCode::Up ==> terminal::key_bytes(key) == Some(ascii("\x1b[A"@)),
        key.code == KeyCode::Down ==> terminal::key_bytes(key) == Some(ascii("\x1b[B"@)),
        key.code == KeyCode::Right ==> terminal::key_bytes(key) == Some(ascii("\x1b[C"@)),
        key.code == KeyCode::Left ==> terminal::key_bytes(key) == Some(ascii("\x1b[D"@)),
        key.code == KeyCode::Home ==> terminal::key_bytes(key) == Some(ascii("\x1b[H"@)),
        key.code == KeyCode::End ==> terminal::key_bytes(key) == Some(ascii("\x1b[F"@)),
        key.code == KeyCode::PageUp ==> terminal::key_bytes(key) == Some(ascii("\x1b[5~"@)),
        key.code == KeyCode::PageDown ==> terminal::key_bytes(key) == Some(ascii("\x1b[6~"@)),
        key.code == KeyCode::Delete ==> terminal::key_bytes(key) == Some(ascii("\x1b[3~"@)),
        key.code == KeyCode::Insert ==> terminal::key_bytes(key) == Some(ascii("\x1b[2~"@)),
        key.code == KeyCode::Other ==> terminal::key_bytes(key) is None,
{
    reveal_strlit("\r");
    reveal_strlit("\t");
    reveal_strlit("\x1b[Z");
    reveal_strlit("\x7f");
    reveal_strlit("\x1b");
    reveal_strlit("\x1b[A");
    reveal_strlit("\x1b[B");
    reveal_strlit("\x1b[C");
    reveal_strlit("\x1b[D");
    reveal_strlit("\x1b[H");
    reveal_strlit("\x1b[F");
    reveal_strlit("\x1b[5~");
    reveal_strlit("\x1b[6~");
    reveal_strlit("\x1b[3~");
    reveal_strlit("\x1b[2~");
    assert(ascii("\r"@) =~= seq![0x0du8]);
    assert(ascii("\t"@) =~= seq![0x09u8]);
    assert(ascii("\x1b[Z"@) =~= seq![0x1bu8, 0x5b, 0x5a]);
    assert(ascii("\x7f"@) =~= seq![0x7fu8]);
    assert(ascii("\x1b"@) =~= seq![0x1bu8]);
    assert(ascii("\x1b[A"@) =~= seq![0x1bu8, 0x5b, 0x41]);
    assert(ascii("\x1b[B"@) =~= seq![0x1bu8, 0x5b, 0x42]);
    assert(ascii("\x1b[C"@) =~= seq![0x1bu8, 0x5b, 0x43]);
    assert(ascii("\x1b[D"@) =~= seq![0x1bu8, 0x5b, 0x44]);
    assert(ascii("\x1b[H"@) =~= seq![0x1bu8, 0x5b, 0x48]);
    assert(ascii("\x1b[F"@) =~= seq![0x1bu8, 0x5b, 0x46]);
    assert(ascii("\x1b[5~"@) =~= seq![0x1bu8, 0x5b, 0x35, 0x7e]);
    assert(ascii("\x1b[6~"@) =~= seq![0x1bu8, 0x5b, 0x36, 0x7e]);
    assert(ascii("\x1b[3~"@) =~= seq![0x1bu8, 0x5b, 0x33, 0x7e]);
    assert(ascii("\x1b[2~"@) =~= seq![0x1bu8, 0x5b, 0x32, 0x7e]);
}

/// Two different keys for editing or moving never send the same bytes.
pub proof fn different_keys_send_different_bytes(a: KeyEvent, b: KeyEvent)
    requires
        !a.modifiers.alt && !b.modifiers.alt,
        a.code != b.code,
        !(a.code is Char) && !(a.code is F) && !(a.code is Other),
        !(b.code is Char) && !(b.code is F) && !(b.code is Other),
    ensures
        terminal::key_bytes(a) != terminal::key_bytes(b),
{
    let one = terminal::key_bytes(a)->0;
    let two = terminal::key_bytes(b)->0;
    assert(one.len() != two.len() || one[0] != two[0] || one[2] != two[2]);
}

/// A function key sends its number and ten, in decimal, between an escape sequence and a tilde.
pub proof fn function_keys_send_their_number(key: KeyEvent, n: u8) -> (number: Seq<u8>)
    requires
        key.code == KeyCode::F(n),
        !key.modifiers.alt,
        n <= 245,
    ensures
        is_number(number, n + 10),
        terminal::key_bytes(key) == Some(seq![0x1bu8, 0x5b] + number + seq![0x7eu8]),
{
    let number = text::decimal_ascii((10 + n) as nat);
    decimal_numbers_have_their_value((10 + n) as nat);
    assert((seq![0x1bu8, 0x5b] + number).push(0x7eu8) =~= seq![0x1bu8, 0x5b] + number + seq![
        0x7eu8,
    ]);
    number
}

/// A character is sent in UTF-8. With the control key, a letter is sent as its place in the
/// alphabet, whether it is a capital or not, and so are the characters around the capitals.
pub proof fn characters_are_sent_as_they_are(key: KeyEvent, c: char)
    requires
        key.code == KeyCode::Char(c),
        !key.modifiers.alt,
    ensures
        !key.modifiers.control ==> terminal::key_bytes(key) == Some(utf8::encode_utf8(seq![c])),
        key.modifiers.control && 'a' <= c <= 'z' ==> terminal::key_bytes(key) == Some(
            seq![(c as int - 'a' as int + 1) as u8],
        ),
        key.modifiers.control && '@' <= c <= '_' ==> terminal::key_bytes(key) == Some(
            seq![(c as int - '@' as int) as u8],
        ),
{
}

/// Alt sends an escape before what the key sends without it.
pub proof fn alt_puts_an_escape_in_front(key: KeyEvent)
    requires
        key.modifiers.alt,
    ensures
        ({
            let plain = KeyEvent {
                modifiers: KeyModifiers { alt: false, ..key.modifiers },
                ..key
            };
            match terminal::key_bytes(plain) {
                Some(bytes) => terminal::key_bytes(key) == Some(seq![0x1bu8] + bytes),
                None => terminal::key_bytes(key) is None,
            }
        }),
{
}

/// What is written goes to the active session, if there is one.
pub proof fn bytes_go_to_the_active_session(app: AppView, bytes: Seq<u8>)
    ensures
        app.active < app.sessions.len() ==> app::written(app, bytes) == (app::ActionView::Write {
            index: app.active,
            bytes,
        }),
        app.active >= app.sessions.len() ==> app::written(app, bytes) is Idle,
{
}

/// The three numbers of a wheel report in the SGR encoding.
pub struct SgrReport {
    pub button: Seq<u8>,
    pub column: Seq<u8>,
    pub row: Seq<u8>,
}

/// A wheel report in the SGR encoding tells the button, which is 64 for a step up and 65 for a step
/// down, then the column, then the row, both counted from one.
pub proof fn sgr_reports_tell_column_and_row(up: bool, column: u16, row: u16) -> (report: SgrReport)
    requires
        column < u16::MAX,
        row < u16::MAX,
    ensures
        terminal::wheel_bytes(MouseProtocolEncoding::Sgr, up, column, row) == seq![
            0x1bu8,
            0x5b,
            0x3c,
        ] + report.button + seq![0x3bu8] + report.column + seq![0x3bu8] + report.row + seq![0x4du8],
        is_number(report.button, if up { 64 } else { 65 }),
        is_number(report.column, column + 1),
        is_number(report.row, row + 1),
{
    let report = SgrReport {
        button: text::decimal_ascii(if up { 64 } else { 65 }),
        column: text::decimal_ascii((column + 1) as nat),
        row: text::decimal_ascii((row + 1) as nat),
    };
    decimal_numbers_have_their_value(if up { 64 } else { 65 });
    decimal_numbers_have_their_value((column + 1) as nat);
    decimal_numbers_have_their_value((row + 1) as nat);
    assert(terminal::wheel_bytes(MouseProtocolEncoding::Sgr, up, column, row) =~= seq![
        0x1bu8,
        0x5b,
        0x3c,
    ] + report.button + seq![0x3bu8] + report.column + seq![0x3bu8] + report.row + seq![0x4du8]);
    report
}

/// A wheel report in the old encoding has six bytes. The last two are the column and the row and
/// 33, or 255 where that is too much.
pub proof fn old_reports_tell_column_and_row(up: bool, column: u16, row: u16)
    ensures
        ({
            let bytes = terminal::wheel_bytes(MouseProtocolEncoding::Default, up, column, row);
            &&& bytes.len() == 6
            &&& bytes[0] == 0x1b && bytes[1] == 0x5b && bytes[2] == 0x4d
            &&& bytes[3] == if up { 96u8 } else { 97u8 }
            &&& column <= 222 ==> bytes[4] == column + 33
            &&& column > 222 ==> bytes[4] == 255
            &&& row <= 222 ==> bytes[5] == row + 33
            &&& row > 222 ==> bytes[5] == 255
        }),
{
}

/// A wheel report in the UTF-8 encoding has the same numbers as characters.
pub proof fn utf8_reports_tell_column_and_row(up: bool, column: u16, row: u16)
    requires
        column + 33 < 0xd800,
        row + 33 < 0xd800,
    ensures
        terminal::wheel_bytes(MouseProtocolEncoding::Utf8, up, column, row) == utf8::encode_utf8(
            seq![
                '\x1b',
                '[',
                'M',
                if up { '`' } else { 'a' },
                (column + 33) as char,
                (row + 33) as char,
            ],
        ),
{
    let text = seq![
        '\x1b',
        '[',
        'M',
        if up { '`' } else { 'a' },
        (column + 33) as char,
        (row + 33) as char,
    ];
    reveal_with_fuel(utf8::encode_utf8, 7);
    assert(text.drop_first() =~= seq!['[', 'M', text[3], text[4], text[5]]);
    assert(text.drop_first().drop_first() =~= seq!['M', text[3], text[4], text[5]]);
    assert(text.drop_first().drop_first().drop_first() =~= seq![text[3], text[4], text[5]]);
    assert(text.drop_first().drop_first().drop_first().drop_first() =~= seq![text[4], text[5]]);
    assert(text.drop_first().drop_first().drop_first().drop_first().drop_first() =~= seq![text[5]]);
    assert(text.drop_first().drop_first().drop_first().drop_first().drop_first().drop_first()
        =~= Seq::empty());
    utf8::char_u32_cast(text[4], (column + 33) as u32);
    utf8::char_u32_cast(text[5], (row + 33) as u32);
    assert((0x1bu32 & 0x7f) as u8 == 0x1b) by (bit_vector);
    assert((0x5bu32 & 0x7f) as u8 == 0x5b) by (bit_vector);
    assert((0x4du32 & 0x7f) as u8 == 0x4d) by (bit_vector);
    assert(utf8::encode_scalar('\x1b' as u32) =~= seq![0x1bu8]);
    assert(utf8::encode_scalar('[' as u32) =~= seq![0x5bu8]);
    assert(utf8::encode_scalar('M' as u32) =~= seq![0x4du8]);
    assert(terminal::wheel_bytes(MouseProtocolEncoding::Utf8, up, column, row) =~= utf8::encode_utf8(
        text,
    ));
}

/// A wheel step is reported exactly if the program in the terminal wants mouse reports.
pub proof fn wheel_steps_are_reported_on_request(
    mode: MouseProtocolMode,
    encoding: MouseProtocolEncoding,
    up: bool,
    column: u16,
    row: u16,
)
    ensures
        mode is Off ==> screen::wheel_reply(mode, encoding, up, column, row) is None,
        !(mode is Off) ==> screen::wheel_reply(mode, encoding, up, column, row) == Some(
            terminal::wheel_bytes(encoding, up, column, row),
        ),
{
}

/// A wheel step up shows three older rows, and one down three newer ones, as far as there are any.
pub proof fn wheel_steps_scroll_three_rows(
    before: vt100::Screen,
    up: vt100::Screen,
    down: vt100::Screen,
)
    requires
        screen::screen_scrollback(before) <= screen::screen_history(before),
        screen::screen_history(before) <= isize::MAX,
        screen::is_scrolled(before, up, screen::wheel_rows(true)),
        screen::is_scrolled(before, down, screen::wheel_rows(false)),
    ensures
        screen::screen_scrollback(before) + 3 <= screen::screen_history(before)
            ==> screen::screen_scrollback(up) == screen::screen_scrollback(before) + 3,
        screen::screen_scrollback(before) + 3 > screen::screen_history(before)
            ==> screen::screen_scrollback(up) == screen::screen_history(before),
        screen::screen_scrollback(before) >= 3 ==> screen::screen_scrollback(down)
            == screen::screen_scrollback(before) - 3,
        screen::screen_scrollback(before) < 3 ==> screen::screen_scrollback(down) == 0,
{
}

/// A scroll position is moved by as many rows as asked for, and stops at the ends of its range.
pub proof fn scroll_positions_move_by_rows(current: usize, delta: isize)
    ensures
        0 <= current + delta <= usize::MAX ==> screen::scrolled(current, delta) == current + delta,
        current + delta < 0 ==> screen::scrolled(current, delta) == 0,
        current + delta > usize::MAX ==> screen::scrolled(current, delta) == usize::MAX,
{
}

/// The drawn cell shows the cell of the screen: its text, or a space where it has none, and its
/// colors and attributes.
pub open spec fn shows(drawn: DrawnCellView, cell: ScreenCellView) -> bool {
    &&& cell.contents.len() > 0 ==> drawn.symbol == cell.contents
    &&& cell.contents.len() == 0 ==> drawn.symbol == seq![' ']
    &&& drawn.style.fg matches Some(color) && is_color(color, cell.fg)
    &&& drawn.style.bg matches Some(color) && is_color(color, cell.bg)
    &&& drawn.style.bold == cell.bold
    &&& drawn.style.dim == cell.dim
    &&& drawn.style.italic == cell.italic
    &&& drawn.style.underlined == cell.underline
    &&& drawn.style.reversed == cell.inverse
}

/// The color is the one that a terminal program set.
pub open spec fn is_color(color: Color, set: VtColor) -> bool {
    match set {
        VtColor::Default => color == Color::Reset,
        VtColor::Idx(i) => color == Color::Indexed(i),
        VtColor::Rgb(r, g, b) => color == Color::Rgb(r, g, b),
    }
}

/// Every cell of a screen that lies in an area is drawn at its row and column of the area.
pub proof fn screens_are_drawn_cell_by_cell(
    cells: Map<(u16, u16), ScreenCellView>,
    size: (u16, u16),
    area: Rect,
    row: u16,
    col: u16,
) -> (place: int)
    requires
        area.wf(),
        cells.contains_key((row, col)),
        row < size.0,
        col < size.1,
        row < area.height,
        col < area.width,
    ensures
        0 <= place < screen::drawn_screen(cells, size, area).len(),
        ({
            let drawn = screen::drawn_screen(cells, size, area)[place];
            drawn.x == area.x + col && drawn.y == area.y + row && shows(drawn, cells[(row, col)])
        }),
{
    let rows = geometry::lesser(area.height as int, size.0 as int);
    let cols = geometry::lesser(area.width as int, size.1 as int);
    reveal_strlit(" ");
    assert(" "@ =~= seq![' ']);
    let place = lemma_row_drawn(cells, area, row as int, cols, col as int);
    lemma_rows_drawn(cells, area, rows, cols, row as int, place)
}

proof fn lemma_row_drawn(
    cells: Map<(u16, u16), ScreenCellView>,
    area: Rect,
    row: int,
    count: int,
    col: int,
) -> (place: int)
    requires
        area.wf(),
        0 <= row < area.height,
        0 <= col < count <= area.width,
        cells.contains_key((row as u16, col as u16)),
    ensures
        0 <= place < screen::drawn_row(cells, area, row, count).len(),
        screen::drawn_row(cells, area, row, count)[place] == screen::drawn_cell(
            cells[(row as u16, col as u16)],
            (area.x + col) as u16,
            (area.y + row) as u16,
        ),
    decreases count,
{
    let all = screen::drawn_row(cells, area, row, count);
    let rest = screen::drawn_row(cells, area, row, count - 1);
    if col < count - 1 {
        let place = lemma_row_drawn(cells, area, row, count - 1, col);
        assert(all[place] == rest[place]);
        place
    } else {
        rest.len() as int
    }
}

proof fn lemma_rows_drawn(
    cells: Map<(u16, u16), ScreenCellView>,
    area: Rect,
    count: int,
    cols: int,
    row: int,
    place: int,
) -> (whole: int)
    requires
        0 <= row < count,
        0 <= place < screen::drawn_row(cells, area, row, cols).len(),
    ensures
        0 <= whole < screen::drawn_rows(cells, area, count, cols).len(),
        screen::drawn_rows(cells, area, count, cols)[whole] == screen::drawn_row(
            cells,
            area,
            row,
            cols,
        )[place],
    decreases count,
{
    let above = screen::drawn_rows(cells, area, count - 1, cols);
    if row < count - 1 {
        lemma_rows_drawn(cells, area, count - 1, cols, row, place)
    } else {
        above.len() + place
    }
}

/// Nothing is drawn of a screen but its cells in the area, each at its row and column.
pub proof fn only_cells_of_the_screen_are_drawn(
    cells: Map<(u16, u16), ScreenCellView>,
    size: (u16, u16),
    area: Rect,
    place: int,
)
    requires
        area.wf(),
        0 <= place < screen::drawn_screen(cells, size, area).len(),
    ensures
        ({
            let drawn = screen::drawn_screen(cells, size, area)[place];
            let row = (drawn.y - area.y) as u16;
            let col = (drawn.x - area.x) as u16;
            &&& area.y <= drawn.y < area.y + area.height
            &&& area.x <= drawn.x < area.x + area.width
            &&& row < size.0 && col < size.1
            &&& cells.contains_key((row, col))
            &&& shows(drawn, cells[(row, col)])
        }),
{
    let rows = geometry::lesser(area.height as int, size.0 as int);
    let cols = geometry::lesser(area.width as int, size.1 as int);
    reveal_strlit(" ");
    assert(" "@ =~= seq![' ']);
    lemma_rows_only(cells, area, rows, cols, place);
}

/// The drawn cell is that of the screen at its place in the area.
spec fn is_from(
    drawn: DrawnCellView,
    cells: Map<(u16, u16), ScreenCellView>,
    area: Rect,
    rows: int,
    cols: int,
) -> bool {
    let row = (drawn.y - area.y) as u16;
    let col = (drawn.x - area.x) as u16;
    &&& area.y <= drawn.y < area.y + rows
    &&& area.x <= drawn.x < area.x + cols
    &&& cells.contains_key((row, col))
    &&& drawn == screen::drawn_cell(cells[(row, col)], drawn.x, drawn.y)
}

proof fn lemma_row_only(
    cells: Map<(u16, u16), ScreenCellView>,
    area: Rect,
    row: int,
    count: int,
    place: int,
)
    requires
        area.wf(),
        0 <= row < area.height,
        count <= area.width,
        0 <= place < screen::drawn_row(cells, area, row, count).len(),
    ensures
        is_from(
            screen::drawn_row(cells, area, row, count)[place],
            cells,
            area,
            row + 1,
            count,
        ),
    decreases count,
{
    let all = screen::drawn_row(cells, area, row, count);
    let rest = screen::drawn_row(cells, area, row, count - 1);
    if place < rest.len() {
        lemma_row_only(cells, area, row, count - 1, place);
        assert(all[place] == rest[place]);
    }
}

proof fn lemma_rows_only(
    cells: Map<(u16, u16), ScreenCellView>,
    area: Rect,
    count: int,
    cols: int,
    place: int,
)
    requires
        area.wf(),
        count <= area.height,
        cols <= area.width,
        0 <= place < screen::drawn_rows(cells, area, count, cols).len(),
    ensures
        is_from(
            screen::drawn_rows(cells, area, count, cols)[place],
            cells,
            area,
            count,
            cols,
        ),
    decreases count,
{
    let above = screen::drawn_rows(cells, area, count - 1, cols);
    if place < above.len() {
        lemma_rows_only(cells, area, count - 1, cols, place);
    } else {
        lemma_row_only(cells, area, count - 1, cols, place - above.len());
    }
}

/// The cursor of a screen is shown at its row and column of the area, unless it is hidden or lies
/// outside.
pub proof fn the_cursor_is_shown_at_its_place(hidden: bool, row: u16, col: u16, area: Rect)
    requires
        area.wf(),
    ensures
        ({
            let place = screen::cursor_place(hidden, (row, col), area);
            &&& hidden || row >= area.height || col >= area.width ==> place is None
            &&& !hidden && row < area.height && col < area.width ==> (place matches Some(at)
                && at.0 == area.x + col && at.1 == area.y + row)
        }),
{
}

/// A terminal has as many rows as its area is high and as many columns as it is wide.
pub proof fn terminals_fill_their_area(area: Rect)
    ensures
        area.width > 0 && area.height > 0 ==> screen::terminal_size(area) == Some(
            (area.height, area.width),
        ),
        area.width == 0 || area.height == 0 ==> screen::terminal_size(area) is None,
{
}

} // verus!
