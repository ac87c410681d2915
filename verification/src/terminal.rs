//! What goes to a terminal: encoded keys and wheel reports.

use crate::events::{KeyCode, KeyEvent};
use crate::geometry;
use crate::text;
use crate::text::push_decimal;
use vstd::prelude::*;
use vstd::utf8;

verus! {

/// The bytes that a terminal sends for a key without regard to Alt.
pub open spec fn plain_key_bytes(key: KeyEvent) -> Option<Seq<u8>> {
    match key.code {
        KeyCode::Char(c) => if key.modifiers.control {
            Some(seq![(text::lower(c) as u32 % 32) as u8])
        } else {
            Some(utf8::encode_utf8(seq![c]))
        },
        KeyCode::Enter => Some(seq![0x0du8]),
        KeyCode::Tab => Some(seq![0x09u8]),
        KeyCode::BackTab => Some(seq![0x1bu8, 0x5b, 0x5a]),
        KeyCode::Backspace => Some(seq![0x7fu8]),
        KeyCode::Esc => Some(seq![0x1bu8]),
        KeyCode::Up => Some(seq![0x1bu8, 0x5b, 0x41]),
        KeyCode::Down => Some(seq![0x1bu8, 0x5b, 0x42]),
        KeyCode::Right => Some(seq![0x1bu8, 0x5b, 0x43]),
        KeyCode::Left => Some(seq![0x1bu8, 0x5b, 0x44]),
        KeyCode::Home => Some(seq![0x1bu8, 0x5b, 0x48]),
        KeyCode::End => Some(seq![0x1bu8, 0x5b, 0x46]),
        KeyCode::PageUp => Some(seq![0x1bu8, 0x5b, 0x35, 0x7e]),
        KeyCode::PageDown => Some(seq![0x1bu8, 0x5b, 0x36, 0x7e]),
        KeyCode::Delete => Some(seq![0x1bu8, 0x5b, 0x33, 0x7e]),
        KeyCode::Insert => Some(seq![0x1bu8, 0x5b, 0x32, 0x7e]),
        KeyCode::F(n) => Some(
            (seq![0x1bu8, 0x5b] + text::decimal_ascii((10 + n) as nat)).push(0x7eu8),
        ),
        KeyCode::Other => None,
    }
}

/// The bytes that a terminal sends for a key. Alt puts an escape before them.
pub open spec fn key_bytes(key: KeyEvent) -> Option<Seq<u8>> {
    match plain_key_bytes(key) {
        Some(bytes) => Some(if key.modifiers.alt { seq![0x1bu8] + bytes } else { bytes }),
        None => None,
    }
}

/// The number of a function key leaves room for the offset of its code.
pub open spec fn key_in_range(key: KeyEvent) -> bool {
    key.code matches KeyCode::F(n) ==> n <= u8::MAX - 10
}

/// The bytes of an optional list.
pub open spec fn bytes_of(value: Option<Vec<u8>>) -> Option<Seq<u8>> {
    match value {
        Some(bytes) => Some(bytes@),
        None => None,
    }
}

fn control_byte(c: char) -> (r: u8)
    ensures
        r == (text::lower(c) as u32 % 32) as u8,
{
    (c as u32 % 32) as u8
}

fn utf8_bytes(c: char) -> (r: Vec<u8>)
    ensures
        r@ == utf8::encode_utf8(seq![c]),
{
    let mut one = String::new();
    one.push(c);
    assert(one@ == seq![c]);
    one.as_str().as_bytes_vec()
}

pub fn encode_key(key: KeyEvent) -> (r: Option<Vec<u8>>)
    requires
        key_in_range(key),
    ensures
        bytes_of(r) == key_bytes(key),
{
    let bytes: Vec<u8> = match key.code {
        KeyCode::Char(c) => if key.modifiers.control {
            vec![control_byte(c)]
        } else {
            utf8_bytes(c)
        },
        KeyCode::Enter => vec![0x0d],
        KeyCode::Tab => vec![0x09],
        KeyCode::BackTab => vec![0x1b, 0x5b, 0x5a],
        KeyCode::Backspace => vec![0x7f],
        KeyCode::Esc => vec![0x1b],
        KeyCode::Up => vec![0x1b, 0x5b, 0x41],
        KeyCode::Down => vec![0x1b, 0x5b, 0x42],
        KeyCode::Right => vec![0x1b, 0x5b, 0x43],
        KeyCode::Left => vec![0x1b, 0x5b, 0x44],
        KeyCode::Home => vec![0x1b, 0x5b, 0x48],
        KeyCode::End => vec![0x1b, 0x5b, 0x46],
        KeyCode::PageUp => vec![0x1b, 0x5b, 0x35, 0x7e],
        KeyCode::PageDown => vec![0x1b, 0x5b, 0x36, 0x7e],
        KeyCode::Delete => vec![0x1b, 0x5b, 0x33, 0x7e],
        KeyCode::Insert => vec![0x1b, 0x5b, 0x32, 0x7e],
        KeyCode::F(n) => {
            let mut bytes: Vec<u8> = vec![0x1b, 0x5b];
            push_decimal(&mut bytes, (10 + n) as u32);
            bytes.push(0x7e);
            bytes
        },
        KeyCode::Other => return None,
    };
    assert(plain_key_bytes(key) == Some(bytes@));
    if key.modifiers.alt {
        let mut escaped: Vec<u8> = vec![0x1b];
        let mut rest = bytes;
        escaped.append(&mut rest);
        Some(escaped)
    } else {
        Some(bytes)
    }
}

/// Whether and when a terminal program wants mouse reports.
#[derive(Clone, Copy, Debug, PartialEq, Eq, Structural)]
pub enum MouseProtocolMode {
    Off,
    Press,
    PressRelease,
    ButtonMotion,
    AnyMotion,
}

/// How a terminal program wants mouse reports encoded.
#[derive(Clone, Copy, Debug, PartialEq, Eq, Structural)]
pub enum MouseProtocolEncoding {
    Default,
    Utf8,
    Sgr,
}

/// The number of the wheel button.
pub open spec fn wheel_button(up: bool) -> int {
    if up { 64 } else { 65 }
}

/// A one-based coordinate.
pub open spec fn one_based(coordinate: u16) -> int {
    geometry::saturated(coordinate + 1)
}

/// A value in the UTF-8 encoding of mouse reports. A value that is no character is left out.
pub open spec fn wheel_utf8(value: int) -> Seq<u8> {
    if utf8::is_scalar(value as u32) {
        utf8::encode_scalar(value as u32)
    } else {
        Seq::empty()
    }
}

/// The report of one step of the mouse wheel.
pub open spec fn wheel_bytes(
    encoding: MouseProtocolEncoding,
    up: bool,
    column: u16,
    row: u16,
) -> Seq<u8> {
    let button = wheel_button(up);
    let x = one_based(column);
    let y = one_based(row);
    match encoding {
        MouseProtocolEncoding::Sgr => {
            ((seq![0x1bu8, 0x5b, 0x3c] + text::decimal_ascii(button as nat)).push(0x3b)
                + text::decimal_ascii(x as nat)).push(0x3b) + text::decimal_ascii(y as nat)
                + seq![0x4du8]
        },
        MouseProtocolEncoding::Default => seq![
            0x1bu8,
            0x5b,
            0x4d,
            (button + 32) as u8,
            geometry::lesser(x + 32, 255) as u8,
            geometry::lesser(y + 32, 255) as u8,
        ],
        MouseProtocolEncoding::Utf8 => {
            seq![0x1bu8, 0x5b, 0x4d] + wheel_utf8(button + 32) + wheel_utf8(x + 32) + wheel_utf8(
                y + 32,
            )
        },
    }
}

fn push_wheel_utf8(out: &mut Vec<u8>, value: u32)
    ensures
        final(out)@ == old(out)@ + wheel_utf8(value as int),
{
    let ghost before = out@;
    if value <= 0x7f {
        out.push((value & 0x7f) as u8);
    } else if value <= 0x7ff {
        out.push(0xc0 | ((value >> 6) & 0x1f) as u8);
        out.push(0x80 | (value & 0x3f) as u8);
    } else if value <= 0xffff {
        if value < 0xd800 || value > 0xdfff {
            out.push(0xe0 | ((value >> 12) & 0x0f) as u8);
            out.push(0x80 | ((value >> 6) & 0x3f) as u8);
            out.push(0x80 | (value & 0x3f) as u8);
        }
    } else if value <= 0x10ffff {
        out.push(0xf0 | ((value >> 18) & 0x7) as u8);
        out.push(0x80 | ((value >> 12) & 0x3f) as u8);
        out.push(0x80 | ((value >> 6) & 0x3f) as u8);
        out.push(0x80 | (value & 0x3f) as u8);
    }
    assert(out@ == before + wheel_utf8(value as int));
}

pub fn encode_mouse_wheel(encoding: MouseProtocolEncoding, up: bool, column: u16, row: u16) -> (r:
    Vec<u8>)
    ensures
        r@ == wheel_bytes(encoding, up, column, row),
{
    let button: u32 = if up { 64 } else { 65 };
    let x: u16 = column.saturating_add(1);
    let y: u16 = row.saturating_add(1);
    match encoding {
        MouseProtocolEncoding::Sgr => {
            let mut bytes: Vec<u8> = vec![0x1b, 0x5b, 0x3c];
            push_decimal(&mut bytes, button);
            bytes.push(0x3b);
            push_decimal(&mut bytes, x as u32);
            bytes.push(0x3b);
            push_decimal(&mut bytes, y as u32);
            bytes.push(0x4d);
            bytes
        },
        MouseProtocolEncoding::Default => {
            let column_byte: u16 = if x >= 223 { 255 } else { x + 32 };
            let row_byte: u16 = if y >= 223 { 255 } else { y + 32 };
            vec![0x1b, 0x5b, 0x4d, (button + 32) as u8, column_byte as u8, row_byte as u8]
        },
        MouseProtocolEncoding::Utf8 => {
            let mut bytes: Vec<u8> = vec![0x1b, 0x5b, 0x4d];
            push_wheel_utf8(&mut bytes, button + 32);
            push_wheel_utf8(&mut bytes, x as u32 + 32);
            push_wheel_utf8(&mut bytes, y as u32 + 32);
            bytes
        },
    }
}

} // verus!
