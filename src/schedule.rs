//! When the screen is refreshed.
use vstd::prelude::*;

verus! {

/// The time between two refreshes, in milliseconds.
pub const TICK_MS: u64 = 5000;

/// Whether a refresh is due, `elapsed_ms` after the last one.
pub fn tick_due(elapsed_ms: u128) -> (r: bool)
    ensures
        r == (elapsed_ms >= TICK_MS as u128),
{
    elapsed_ms >= TICK_MS as u128
}

} // verus!
