//! How often the program does what it repeats.

use crate::geometry;
use vstd::prelude::*;

verus! {

/// The time between two pictures of the screen, in nanoseconds.
pub const DRAW_INTERVAL: u64 = 16_000_000;

/// The time after which the workspace is saved again, in nanoseconds.
pub const SAVE_INTERVAL: u64 = 500_000_000;

/// Something that was last done at the time `last` and is repeated after `interval` is to be done at
/// the time `now`.
pub open spec fn due(now: u64, last: u64, interval: u64) -> bool {
    geometry::minus(now as int, last as int) >= interval
}

/// Repeated work is due from the end of its interval on: not before, and then until it is done. A
/// picture is drawn every 16 milliseconds, and the workspace is saved every half a second.
pub proof fn work_is_due_after_its_interval(now: u64, last: u64, interval: u64)
    requires
        interval > 0,
    ensures
        due(now, last, interval) <==> now >= last + interval,
        due(now, last, DRAW_INTERVAL) <==> now >= last + 16 * 1_000_000,
        due(now, last, SAVE_INTERVAL) <==> now >= last + 500 * 1_000_000,
{
}

/// Whether something that was last done at the time `last` and is repeated after `interval` is to
/// be done at the time `now`. A time before `last` counts as `last`.
pub fn is_due(now: u64, last: u64, interval: u64) -> (r: bool)
    ensures
        r == due(now, last, interval),
{
    now.saturating_sub(last) >= interval
}

} // verus!
