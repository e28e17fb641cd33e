//! Timing of the game's sound effects.
use vstd::prelude::*;

verus! {

/// Samples per second of the game's sound effects.
pub const SAMPLE_RATE: u32 = 44_100;

/// The number of samples that last `milliseconds`, rounded down.
pub fn samples_for(milliseconds: u32) -> (count: usize)
    ensures
        count == (SAMPLE_RATE * milliseconds / 1000) as usize,
{
    let rate: u64 = SAMPLE_RATE as u64;
    assert(rate * milliseconds <= 44_100 * 0xffff_ffff) by (nonlinear_arith)
        requires
            rate == 44_100,
            milliseconds <= 0xffff_ffff,
    ;
    (rate * milliseconds as u64 / 1000) as usize
}

} // verus!
