//! The xoroshiro128+ generator that drives a sequencer's chance.

use vstd::prelude::*;

verus! {

/// One round of the splitmix64 mixer, which spreads a 64-bit seed.
pub open spec fn splitmix64(x: u64) -> u64 {
    let x1 = x.wrapping_add(0x9E3779B97F4A7C15u64);
    let z1 = (x1 ^ (x1 >> 30u32)).wrapping_mul(0xBF58476D1CE4E5B9u64);
    let z2 = (z1 ^ (z1 >> 27u32)).wrapping_mul(0x94D049BB133111EBu64);
    z2 ^ (z2 >> 31u32)
}

/// `x` rotated left by `k` bits.
pub open spec fn spec_rotl(x: u64, k: u32) -> u64 {
    (x << k) | (x >> ((64 - k) as u32))
}

/// Distance between the two bounds of a range, whichever is larger.
pub open spec fn range_width(lower: i64, upper: i64) -> int {
    if upper > lower {
        upper - lower
    } else {
        lower - upper
    }
}

/// Generator state: two 64-bit words.
#[derive(Clone, Copy, Debug, PartialEq, Eq, Structural)]
pub struct X128P {
    pub s0: u64,
    pub s1: u64,
}

impl X128P {
    /// State that `seed` expands to.
    pub open spec fn spec_new(seed: u64) -> X128P {
        X128P {
            s0: splitmix64(seed),
            s1: splitmix64(seed.wrapping_add(0x9E3779B97F4A7C15u64)),
        }
    }

    /// The word that the next draw returns.
    pub open spec fn spec_output(self) -> u64 {
        self.s0.wrapping_add(self.s1)
    }

    /// State after one draw.
    pub open spec fn spec_step(self) -> X128P {
        let t = self.s1 ^ self.s0;
        X128P { s0: spec_rotl(self.s0, 55) ^ t ^ (t << 14u32), s1: spec_rotl(t, 36) }
    }

    /// The value that a draw of `r` maps to in the range from `lower`:
    /// `lower` plus the top 64 bits of `r` times the width of the range.
    pub open spec fn spec_scale(r: u64, lower: i64, upper: i64) -> int {
        lower + (r as int * range_width(lower, upper)) / 0x1_0000_0000_0000_0000
    }

    /// Expands a 64-bit seed into 128 bits of state.
    pub fn new(seed: u64) -> (r: X128P)
        ensures
            r == Self::spec_new(seed),
    {
        let s0 = mix(seed);
        let s1 = mix(seed.wrapping_add(0x9E3779B97F4A7C15u64));
        X128P { s0, s1 }
    }

    /// `x` rotated left by `k` bits.
    pub fn rotl(x: u64, k: u32) -> (r: u64)
        requires
            0 < k < 64,
        ensures
            r == spec_rotl(x, k),
    {
        (x << k) | (x >> (64 - k))
    }

    /// Draws the next 64-bit word.
    pub fn next_u64(&mut self) -> (r: u64)
        ensures
            r == old(self).spec_output(),
            *final(self) == old(self).spec_step(),
    {
        let result = self.s0.wrapping_add(self.s1);
        let t = self.s1 ^ self.s0;
        self.s0 = Self::rotl(self.s0, 55) ^ t ^ (t << 14u32);
        self.s1 = Self::rotl(t, 36);
        result
    }

    /// Draws the numerator of a fraction over 2^53 that lies in `[0, 1)`:
    /// the top 53 bits of the next word.
    pub fn next_mantissa(&mut self) -> (r: u64)
        ensures
            r == old(self).spec_output() >> 11u32,
            r < 0x20_0000_0000_0000,
            *final(self) == old(self).spec_step(),
    {
        let word = self.next_u64();
        assert(word >> 11u32 < 0x20_0000_0000_0000u64) by (bit_vector);
        word >> 11u32
    }

    /// Draws an integer from the range that starts at `lower` and is as wide
    /// as the distance between the bounds.
    pub fn next_i64_range(&mut self, lower: i64, upper: i64) -> (r: i64)
        requires
            lower + range_width(lower, upper) <= i64::MAX + 1,
        ensures
            r == Self::spec_scale(old(self).spec_output(), lower, upper),
            *final(self) == old(self).spec_step(),
            lower <= r,
            lower != upper ==> r < lower + range_width(lower, upper),
            lower == upper ==> r == lower,
    {
        let r = self.next_u64();
        let range: u64 = if upper > lower {
            (upper as i128 - lower as i128) as u64
        } else {
            (lower as i128 - upper as i128) as u64
        };
        proof {
            lemma_scale_bounds(r, range);
        }
        let wide: u128 = (r as u128) * (range as u128);
        let val: u64 = (wide / 0x1_0000_0000_0000_0000u128) as u64;
        ((lower as i128) + (val as i128)) as i64
    }
}

/// One splitmix64 round on a machine word.
fn mix(x: u64) -> (r: u64)
    ensures
        r == splitmix64(x),
{
    let x1 = x.wrapping_add(0x9E3779B97F4A7C15u64);
    let z1 = (x1 ^ (x1 >> 30u32)).wrapping_mul(0xBF58476D1CE4E5B9u64);
    let z2 = (z1 ^ (z1 >> 27u32)).wrapping_mul(0x94D049BB133111EBu64);
    z2 ^ (z2 >> 31u32)
}

/// The top half of a 64 by 64 bit product is below the second factor.
proof fn lemma_scale_bounds(r: u64, range: u64)
    ensures
        0 <= r as int * range as int <= u128::MAX,
        0 <= (r as int * range as int) / 0x1_0000_0000_0000_0000 <= u64::MAX,
        range > 0 ==> (r as int * range as int) / 0x1_0000_0000_0000_0000 < range,
        range == 0 ==> (r as int * range as int) / 0x1_0000_0000_0000_0000 == 0,
{
    let p = r as int * range as int;
    assert(0 <= p <= 0xffff_ffff_ffff_ffff * range as int) by (nonlinear_arith)
        requires
            p == r as int * range as int,
            0 <= r as int <= 0xffff_ffff_ffff_ffff,
            0 <= range as int,
    ;
    assert(0xffff_ffff_ffff_ffff * range as int <= 0xffff_ffff_ffff_ffff * 0xffff_ffff_ffff_ffff)
        by (nonlinear_arith)
        requires
            0 <= range as int <= 0xffff_ffff_ffff_ffff,
    ;
    if range > 0 {
        assert(p < 0x1_0000_0000_0000_0000 * range as int);
    }
}

} // verus!
