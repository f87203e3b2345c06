//! Tempo: a counter of samples and the length of one period.
//!
//! A [`TempoState`] counts the samples that its owner has played and divides
//! them into periods of `interval` samples. Who the owner is, and so who
//! advances the counter, is the state's [`TempoMode`].

use vstd::prelude::*;
use crate::audio_processing::fixed::Fixed;

pub mod clock;
pub mod sample_rate;

verus! {

/// The kind of owner of a tempo. `TBD` is a tempo that was never given one:
/// a voice holds it until a group adopts the voice.
#[derive(Clone, Copy, Debug, PartialEq, Eq, Structural)]
pub enum TempoMode {
    Voice,
    Group,
    Context,
    Process,
    TBD,
}

/// The unit in which an interval was entered.
#[derive(Clone, Copy, Debug, PartialEq, Eq, Structural)]
pub enum TempoUnit {
    Samples,
    Millis,
    Bpm,
}

/// `n` brought into the raw range of a positive interval.
pub open spec fn clamp_interval(n: int) -> int {
    if n < 1 {
        1
    } else if n > i64::MAX as int {
        i64::MAX as int
    } else {
        n
    }
}

/// Raw length in samples of a positive interval entered in `unit`, at `rate`
/// samples per second: the interval itself for samples, `rate * interval /
/// 1000` for milliseconds, `rate * 60 / interval` for beats per minute, the
/// last two rounded down and kept positive and in range.
pub open spec fn spec_convert_interval(unit: TempoUnit, interval: Fixed, rate: u32) -> Fixed
    recommends
        interval.raw > 0,
{
    match unit {
        TempoUnit::Samples => interval,
        TempoUnit::Millis => Fixed {
            raw: clamp_interval(rate as int * interval.raw as int / 1000) as i64,
        },
        TempoUnit::Bpm => Fixed {
            raw: clamp_interval(rate as int * 60 * 0x1_0000_0000 / interval.raw as int) as i64,
        },
    }
}

/// Converts a positive interval to samples.
pub fn convert_interval(unit: TempoUnit, interval: Fixed, rate: u32) -> (r: Fixed)
    requires
        interval.raw > 0,
    ensures
        r == spec_convert_interval(unit, interval, rate),
        r.raw > 0,
{
    let wide: u128 = match unit {
        TempoUnit::Samples => {
            return interval;
        },
        TempoUnit::Millis => {
            assert(rate as int * interval.raw as int <= 0xffff_ffff * 0x7fff_ffff_ffff_ffff)
                by (nonlinear_arith)
                requires
                    0 <= rate as int <= 0xffff_ffff,
                    0 <= interval.raw as int <= 0x7fff_ffff_ffff_ffff,
            ;
            assert(0 <= rate as int * interval.raw as int) by (nonlinear_arith)
                requires
                    0 <= rate as int,
                    0 <= interval.raw as int,
            ;
            (rate as u128) * (interval.raw as u128) / 1000
        },
        TempoUnit::Bpm => {
            (rate as u128) * 60 * 0x1_0000_0000u128 / (interval.raw as u128)
        },
    };
    if wide < 1 {
        Fixed { raw: 1 }
    } else if wide > i64::MAX as u128 {
        Fixed { raw: i64::MAX }
    } else {
        Fixed { raw: wide as i64 }
    }
}

/// A tempo: owner kind, entry unit, period length in samples, whether it
/// runs, and the samples counted so far.
#[derive(Clone, Copy, Debug, PartialEq, Eq, Structural)]
pub struct TempoState {
    pub mode: TempoMode,
    pub unit: TempoUnit,
    pub interval: Fixed,
    pub active: bool,
    pub current: u64,
}

impl TempoState {
    /// Elapsed periods: samples counted over samples per period, rounded down
    /// to a multiple of 1/65536 and saturating at the top of the range.
    pub open spec fn spec_current(self) -> Fixed {
        let q = self.current as int * 0x1_0000_0000 / self.interval.raw as int;
        Fixed { raw: if q > i64::MAX as int { i64::MAX } else { q as i64 } }
    }

    /// The counter after `delta` more samples; it stops at the top of its
    /// range.
    pub open spec fn spec_update(self, delta: u64) -> TempoState {
        TempoState {
            current: if self.current + delta > u64::MAX {
                u64::MAX
            } else {
                (self.current + delta) as u64
            },
            ..self
        }
    }

    /// A tempo without owner or period, stopped at zero.
    pub fn new() -> (r: TempoState)
        ensures
            r == (TempoState {
                mode: TempoMode::TBD,
                unit: TempoUnit::Samples,
                interval: Fixed { raw: 0 },
                active: false,
                current: 0,
            }),
    {
        TempoState {
            mode: TempoMode::TBD,
            unit: TempoUnit::Samples,
            interval: Fixed { raw: 0 },
            active: false,
            current: 0,
        }
    }

    /// Gives the tempo its owner kind and its period, which is positive,
    /// entered in `unit` and stored in samples.
    pub fn init(&mut self, mode: TempoMode, unit: TempoUnit, interval: Fixed, rate: u32)
        requires
            interval.raw > 0,
        ensures
            *final(self) == (TempoState {
                mode,
                unit,
                interval: spec_convert_interval(unit, interval, rate),
                ..*old(self)
            }),
            final(self).interval.raw > 0,
    {
        self.mode = mode;
        self.unit = unit;
        self.interval = convert_interval(unit, interval, rate);
    }

    /// Counts `delta` more samples.
    pub fn update(&mut self, delta: u64)
        ensures
            *final(self) == old(self).spec_update(delta),
            final(self).current >= old(self).current,
    {
        self.current = self.current.saturating_add(delta);
    }

    /// Elapsed periods.
    pub fn current(&self) -> (r: Fixed)
        requires
            self.interval.raw > 0,
        ensures
            r == self.spec_current(),
            r.raw >= 0,
    {
        let num: u128 = (self.current as u128) * 0x1_0000_0000u128;
        let q: u128 = num / (self.interval.raw as u128);
        if q > i64::MAX as u128 {
            Fixed { raw: i64::MAX }
        } else {
            Fixed { raw: q as i64 }
        }
    }

    /// Sets the counter back to zero.
    pub fn reset(&mut self)
        ensures
            *final(self) == (TempoState { current: 0, ..*old(self) }),
    {
        self.current = 0;
    }

    /// Replaces the period by one that is positive, entered in the tempo's
    /// own unit.
    pub fn set_interval(&mut self, new_interval: Fixed, rate: u32)
        requires
            new_interval.raw > 0,
        ensures
            *final(self) == (TempoState {
                interval: spec_convert_interval(old(self).unit, new_interval, rate),
                ..*old(self)
            }),
    {
        self.interval = convert_interval(self.unit, new_interval, rate);
    }

    /// Runs the tempo from zero.
    pub fn start(&mut self)
        ensures
            *final(self) == (TempoState { active: true, current: 0, ..*old(self) }),
    {
        self.active = true;
        self.current = 0;
    }

    /// Halts the tempo and sets it back to zero.
    pub fn stop(&mut self)
        ensures
            *final(self) == (TempoState { active: false, current: 0, ..*old(self) }),
    {
        self.active = false;
        self.current = 0;
    }

    /// Halts the tempo where it is.
    pub fn pause(&mut self)
        ensures
            *final(self) == (TempoState { active: false, ..*old(self) }),
    {
        self.active = false;
    }

    /// Lets the tempo run on from where it is.
    pub fn resume(&mut self)
        ensures
            *final(self) == (TempoState { active: true, ..*old(self) }),
    {
        self.active = true;
    }
}

/// Beats per minute and samples per beat convert into each other by the same
/// rule, and converting twice gives the tempo back exactly: for every tempo
/// whose raw value squared is at most `rate * 60 * 2^32`, which at 48000
/// samples per second is every tempo up to 1697 beats per minute, and whose
/// period in samples is in range.
pub proof fn lemma_bpm_round_trip(bpm: Fixed, rate: u32)
    requires
        bpm.raw > 0,
        bpm.raw as int * bpm.raw as int <= rate as int * 60 * 0x1_0000_0000,
        (rate as int * 60 * 0x1_0000_0000) / (bpm.raw as int) <= i64::MAX,
    ensures
        spec_convert_interval(
            TempoUnit::Bpm,
            spec_convert_interval(TempoUnit::Bpm, bpm, rate),
            rate,
        ) == bpm,
{
    let k = rate as int * 60 * 0x1_0000_0000;
    let b = bpm.raw as int;
    let q = k / b;
    assert(b * q <= k < b * q + b) by (nonlinear_arith)
        requires
            q == k / b,
            b > 0,
    ;
    assert(q >= b) by (nonlinear_arith)
        requires
            b * b <= k,
            k < b * q + b,
            b > 0,
    ;
    assert(k / q == b) by (nonlinear_arith)
        requires
            b * q <= k,
            k < b * q + b,
            b <= q,
            b > 0,
    ;
    let once = spec_convert_interval(TempoUnit::Bpm, bpm, rate);
    assert(once.raw == q);
    assert(spec_convert_interval(TempoUnit::Bpm, once, rate).raw == b);
}

/// For every tempo whose period is at least one raw unit of a sample, and in
/// range, converting twice gives a tempo that is not below the first and
/// above it by less than its raw value squared over `rate * 60 * 2^32` less
/// that value.
pub proof fn lemma_bpm_round_trip_bound(bpm: Fixed, rate: u32)
    requires
        bpm.raw > 0,
        (bpm.raw as int) < rate as int * 60 * 0x1_0000_0000,
        (rate as int * 60 * 0x1_0000_0000) / (bpm.raw as int) <= i64::MAX,
    ensures
        ({
            let back = spec_convert_interval(
                TempoUnit::Bpm,
                spec_convert_interval(TempoUnit::Bpm, bpm, rate),
                rate,
            );
            &&& back.raw >= bpm.raw
            &&& (back.raw - bpm.raw) * (rate as int * 60 * 0x1_0000_0000 - bpm.raw) < bpm.raw
                * bpm.raw
        }),
{
    let k = rate as int * 60 * 0x1_0000_0000;
    let b = bpm.raw as int;
    let q = k / b;
    assert(b * q <= k < b * q + b) by (nonlinear_arith)
        requires
            q == k / b,
            b > 0,
    ;
    assert(q >= 1) by (nonlinear_arith)
        requires
            k < b * q + b,
            b < k,
            b > 0,
    ;
    let p = k / q;
    assert(q * p <= k < q * p + q) by (nonlinear_arith)
        requires
            p == k / q,
            q > 0,
    ;
    assert(p >= b) by (nonlinear_arith)
        requires
            b * q <= k,
            k < q * p + q,
            q > 0,
    ;
    assert((p - b) * (k - b) < b * b) by (nonlinear_arith)
        requires
            q * p <= k,
            k < b * q + b,
            p >= b,
            b > 0,
            q >= 1,
            b < k,
    ;
    let once = spec_convert_interval(TempoUnit::Bpm, bpm, rate);
    assert(once.raw == q);
    let back = spec_convert_interval(TempoUnit::Bpm, once, rate);
    assert(back.raw == if p > i64::MAX { i64::MAX as int } else { p });
    if p > i64::MAX {
        assert((back.raw - b) * (k - b) <= (p - b) * (k - b)) by (nonlinear_arith)
            requires
                back.raw <= p,
                k - b > 0,
        ;
    }
}

/// For every tempo up to `rate * 60 / 256` beats per minute whose period is
/// in range, converting twice gives a tempo that is not below the first and
/// above it by less than one part in 2^24 of it, which is less than the
/// distance between neighbouring numbers of 24 significant bits.
pub proof fn lemma_bpm_round_trip_close(bpm: Fixed, rate: u32)
    requires
        bpm.raw > 0,
        bpm.raw * 0x100_0001 <= rate as int * 60 * 0x1_0000_0000,
        (rate as int * 60 * 0x1_0000_0000) / (bpm.raw as int) <= i64::MAX,
    ensures
        ({
            let back = spec_convert_interval(
                TempoUnit::Bpm,
                spec_convert_interval(TempoUnit::Bpm, bpm, rate),
                rate,
            );
            &&& back.raw >= bpm.raw
            &&& (back.raw - bpm.raw) * 0x100_0000 < bpm.raw
        }),
{
    lemma_bpm_round_trip_bound(bpm, rate);
    let k = rate as int * 60 * 0x1_0000_0000;
    let b = bpm.raw as int;
    let back = spec_convert_interval(
        TempoUnit::Bpm,
        spec_convert_interval(TempoUnit::Bpm, bpm, rate),
        rate,
    );
    let e = back.raw - b;
    assert(e * 0x100_0000 < b) by (nonlinear_arith)
        requires
            e >= 0,
            b > 0,
            e * (k - b) < b * b,
            b * 0x100_0001 <= k,
    ;
}

/// The counter never runs backwards while it is advanced.
pub proof fn lemma_update_monotone(t: TempoState, delta: u64)
    ensures
        t.spec_update(delta).current >= t.current,
        t.spec_update(delta).interval == t.interval,
        t.spec_update(delta).mode == t.mode,
        t.spec_update(delta).active == t.active,
{
}

} // verus!
