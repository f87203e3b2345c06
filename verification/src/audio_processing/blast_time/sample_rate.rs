//! The sample rate that the whole engine runs at, set once at startup.

use vstd::prelude::*;

verus! {

/// Holder of the rate, in samples per second.
#[derive(Clone, Copy, Debug, PartialEq, Eq, Structural)]
pub struct SampleRate {
    pub hz: u32,
}

impl SampleRate {
    /// A holder with no rate set yet.
    pub fn new() -> (r: SampleRate)
        ensures
            r.hz == 0,
    {
        SampleRate { hz: 0 }
    }
}

/// Stores the rate.
pub fn set(holder: &mut SampleRate, sample_rate: u32)
    ensures
        final(holder).hz == sample_rate,
{
    holder.hz = sample_rate;
}

/// The rate that was stored last.
pub fn get(holder: &SampleRate) -> (r: u32)
    ensures
        r == holder.hz,
{
    holder.hz
}

} // verus!
