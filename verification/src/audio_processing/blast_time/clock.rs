//! The engine's sample clock: frames written since startup.

use vstd::prelude::*;

verus! {

/// A counter of frames that wraps at 2^64.
#[derive(Clone, Copy, Debug, PartialEq, Eq, Structural)]
pub struct Clock {
    pub samples: u64,
}

impl Clock {
    /// A clock at zero.
    pub fn new() -> (r: Clock)
        ensures
            r.samples == 0,
    {
        Clock { samples: 0 }
    }
}

/// Moves the clock on by `n` frames.
pub fn advance(clock: &mut Clock, n: u64)
    ensures
        final(clock).samples == old(clock).samples.wrapping_add(n),
        old(clock).samples + n <= u64::MAX ==> final(clock).samples == old(clock).samples + n,
{
    clock.samples = clock.samples.wrapping_add(n);
}

/// Frames counted so far.
pub fn current(clock: &Clock) -> (r: u64)
    ensures
        r == clock.samples,
{
    clock.samples
}

} // verus!
