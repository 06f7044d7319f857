//! Speed policy: the tick interval shrinks by a fixed step at every growth
//! and never goes below a floor.

use vstd::prelude::*;

verus! {

/// Tick interval of a new game, in milliseconds.
pub const INITIAL_INTERVAL_MS: u32 = 500;

/// How much shorter the tick interval gets at every growth, in milliseconds.
pub const SPEED_STEP_MS: u32 = 100;

/// The shortest tick interval, in milliseconds.
pub const SPEED_FLOOR_MS: u32 = 100;

/// The interval after a growth: `max(floor_ms, current_ms - step_ms)`.
pub open spec fn next_interval(current_ms: int, step_ms: int, floor_ms: int) -> int {
    if current_ms - step_ms >= floor_ms {
        current_ms - step_ms
    } else {
        floor_ms
    }
}

/// The interval after a growth.
pub fn on_growth(current_ms: u32, step_ms: u32, floor_ms: u32) -> (next_ms: u32)
    ensures
        next_ms == next_interval(current_ms as int, step_ms as int, floor_ms as int),
{
    if current_ms >= step_ms && current_ms - step_ms >= floor_ms {
        current_ms - step_ms
    } else {
        floor_ms
    }
}

/// From an interval at or above the floor, a growth never lengthens the
/// interval and never takes it below the floor.
pub proof fn lemma_interval_shrinks_to_floor(current_ms: int, step_ms: int, floor_ms: int)
    requires
        0 <= step_ms,
        floor_ms <= current_ms,
    ensures
        floor_ms <= next_interval(current_ms, step_ms, floor_ms) <= current_ms,
{
}

} // verus!
