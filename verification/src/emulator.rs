//! The emulator of a terminal: what a shell writes goes in, and a screen comes out. The emulation is
//! that of `vt100`.

use crate::platform;
use crate::platform::update_cwd_from_osc7;
use crate::screen;
use crate::terminal::{MouseProtocolEncoding, MouseProtocolMode};
use crate::text;
use vstd::prelude::*;
use vstd::utf8;

verus! {

/// How many rows a terminal keeps after they were scrolled out.
pub const SCROLLBACK_ROWS: usize = 10_000;

/// The emulator of a terminal, as `vt100` keeps it.
#[verifier::external_body]
pub struct Emulator {
    parser: vt100::Parser,
}

/// The screen of an emulator.
pub uninterp spec fn emulator_screen(emulator: Emulator) -> vt100::Screen;

/// The screen of an emulator after it has taken the bytes that a program wrote.
pub uninterp spec fn screen_after(emulator: Emulator, bytes: Seq<u8>) -> vt100::Screen;

/// A screen of the given size to which nothing was written, and which keeps up to `history` rows
/// that are scrolled out.
pub open spec fn is_blank(screen: vt100::Screen, rows: u16, cols: u16, history: usize) -> bool {
    &&& screen::screen_size(screen) == (rows, cols)
    &&& screen::screen_limit(screen) == history
    &&& screen::screen_history(screen) == 0
    &&& screen::screen_scrollback(screen) == 0
    &&& forall|offset: usize| #[trigger]
        screen::screen_view(screen, offset) == screen::fitted(Map::empty(), rows, cols)
    &&& screen::screen_cursor(screen) == (0u16, 0u16)
    &&& !screen::screen_cursor_hidden(screen)
    &&& screen::screen_mouse_mode(screen) == MouseProtocolMode::Off
    &&& screen::screen_mouse_encoding(screen) == MouseProtocolEncoding::Default
    &&& screen::roomy(rows, cols) ==> screen::screen_whole(screen)
}

/// Calls `vt100::Parser::new`. The claim: the screen is a blank one of the given size that keeps as
/// many rows as given, and it is whole if it is roomy. There is at least one row: on zero the call
/// may not return.
#[verifier::external_body]
fn new_parser(rows: u16, cols: u16, history: usize) -> (r: Emulator)
    requires
        rows > 0,
    ensures
        is_blank(emulator_screen(r), rows, cols, history),
{
    Emulator { parser: vt100::Parser::new(rows, cols, history) }
}

/// Calls `vt100::Parser::process`. The claim: the screen afterwards depends on the emulator before
/// and on the bytes alone. It has the same size, it stays whole, and the rows that it keeps do not
/// exceed the number that it was made for. What the bytes do to the cells is not said beyond that.
/// Only a whole screen is sure to take any bytes.
#[verifier::external_body]
fn process(emulator: &mut Emulator, bytes: &[u8])
    requires
        screen::screen_whole(emulator_screen(*old(emulator))),
    ensures
        emulator_screen(*final(emulator)) == screen_after(*old(emulator), bytes@),
        screen::screen_whole(emulator_screen(*final(emulator))),
        screen::screen_size(emulator_screen(*final(emulator))) == screen::screen_size(
            emulator_screen(*old(emulator)),
        ),
        screen::screen_limit(emulator_screen(*final(emulator))) == screen::screen_limit(
            emulator_screen(*old(emulator)),
        ),
        screen::screen_history(emulator_screen(*final(emulator))) <= screen::screen_limit(
            emulator_screen(*final(emulator)),
        ),
{
    emulator.parser.process(bytes);
}

/// Calls `vt100::Parser::screen`: the screen of the emulator.
#[verifier::external_body]
fn screen_of(emulator: &Emulator) -> (r: &vt100::Screen)
    ensures
        *r == emulator_screen(*emulator),
{
    emulator.parser.screen()
}

/// Calls `vt100::Parser::screen_mut`. The claim: what is done to the result is done to the screen of
/// the emulator.
#[verifier::external_body]
fn screen_of_mut(emulator: &mut Emulator) -> (r: &mut vt100::Screen)
    ensures
        *r == emulator_screen(*old(emulator)),
        emulator_screen(*final(emulator)) == *final(r),
{
    emulator.parser.screen_mut()
}

impl Emulator {
    /// An emulator with a blank screen that keeps up to `history` rows that are scrolled out.
    pub fn new(rows: u16, cols: u16, history: usize) -> (r: Self)
        requires
            rows > 0,
        ensures
            is_blank(emulator_screen(r), rows, cols, history),
    {
        new_parser(rows, cols, history)
    }

    /// The emulator of a shell that was just started.
    pub fn for_shell(rows: u16, cols: u16) -> (r: Self)
        requires
            rows > 0,
        ensures
            is_blank(emulator_screen(r), rows, cols, SCROLLBACK_ROWS),
    {
        Emulator::new(rows, cols, SCROLLBACK_ROWS)
    }

    /// The screen to be drawn.
    pub fn screen(&self) -> (r: &vt100::Screen)
        ensures
            *r == emulator_screen(*self),
    {
        screen_of(self)
    }

    /// The screen to be resized or scrolled.
    pub fn screen_mut(&mut self) -> (r: &mut vt100::Screen)
        ensures
            *r == emulator_screen(*old(self)),
            emulator_screen(*final(self)) == *final(r),
    {
        screen_of_mut(self)
    }
}

/// Takes what a shell wrote: the screen takes the bytes, and the working directory becomes the one
/// that they report, if they do. The screen is whole from the start if it is roomy, and stays so
/// while it is scrolled, takes output, or gets another roomy size without losing columns.
pub fn take_output(emulator: &mut Emulator, cwd: &mut Vec<u8>, bytes: &[u8])
    requires
        screen::screen_whole(emulator_screen(*old(emulator))),
    ensures
        emulator_screen(*final(emulator)) == screen_after(*old(emulator), bytes@),
        screen::screen_whole(emulator_screen(*final(emulator))),
        screen::screen_size(emulator_screen(*final(emulator))) == screen::screen_size(
            emulator_screen(*old(emulator)),
        ),
        screen::screen_limit(emulator_screen(*final(emulator))) == screen::screen_limit(
            emulator_screen(*old(emulator)),
        ),
        screen::screen_history(emulator_screen(*final(emulator))) <= screen::screen_limit(
            emulator_screen(*final(emulator)),
        ),
        match platform::reported_directory(text::shown(bytes@)) {
            Some(path) => final(cwd)@ == utf8::encode_utf8(path),
            None => *final(cwd) == *old(cwd),
        },
{
    process(emulator, bytes);
    update_cwd_from_osc7(bytes, cwd);
}

} // verus!
