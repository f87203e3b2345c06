//! Signed fixed-point numbers with sixteen fractional bits.
//!
//! A [`Fixed`] with raw value `r` stands for the rational `r / 65536`. All
//! contracts speak of the raw integer, so every statement about a real
//! quantity in this crate is a statement about integers.

use vstd::prelude::*;

verus! {

/// Raw value of the number one.
pub const ONE: i64 = 65536;

/// A real number `raw / 65536`.
#[derive(Clone, Copy, Debug, PartialEq, Eq, Structural)]
pub struct Fixed {
    pub raw: i64,
}

/// The integer `n` clamped to the range of `i64`.
pub open spec fn clamp_i64(n: int) -> int {
    if n < i64::MIN as int {
        i64::MIN as int
    } else if n > i64::MAX as int {
        i64::MAX as int
    } else {
        n
    }
}

/// The integer `n` clamped to the range of `i16`.
pub open spec fn clamp_i16(n: int) -> int {
    if n < i16::MIN as int {
        i16::MIN as int
    } else if n > i16::MAX as int {
        i16::MAX as int
    } else {
        n
    }
}

/// `n / d` rounded toward zero, for a positive `d`.
pub open spec fn trunc_div(n: int, d: int) -> int {
    if n >= 0 {
        n / d
    } else {
        -((-n) / d)
    }
}

impl Fixed {
    /// Raw value that stands for the whole number `n`, saturating at the top
    /// of the range.
    pub open spec fn spec_from_usize(n: usize) -> Fixed {
        Fixed { raw: clamp_i64(n as int * 65536) as i64 }
    }

    /// Largest integer not above the number.
    pub open spec fn spec_floor(self) -> int {
        self.raw as int / 65536
    }

    /// The number minus its floor, as a raw value in `[0, 65536)`.
    pub open spec fn spec_frac(self) -> int {
        self.raw as int % 65536
    }

    /// The number rounded toward zero.
    pub open spec fn spec_trunc(self) -> int {
        trunc_div(self.raw as int, 65536)
    }

    /// Sum of two numbers, saturating at both ends of the range.
    pub open spec fn spec_saturating_add(self, other: Fixed) -> Fixed {
        Fixed { raw: clamp_i64(self.raw as int + other.raw as int) as i64 }
    }

    /// The whole number `n`, saturating at the top of the range.
    pub fn from_usize(n: usize) -> (r: Fixed)
        ensures
            r == Self::spec_from_usize(n),
    {
        let wide: u64 = n as u64;
        if wide > 0x7fff_ffff_ffffu64 {
            Fixed { raw: i64::MAX }
        } else {
            Fixed { raw: (wide as i64) * ONE }
        }
    }

    /// Largest integer not above the number.
    pub fn floor(self) -> (r: i64)
        ensures
            r == self.spec_floor(),
    {
        if self.raw >= 0 {
            self.raw / ONE
        } else {
            -((-(self.raw + 1)) / ONE) - 1
        }
    }

    /// The number minus its floor, as a raw value.
    pub fn frac(self) -> (r: i64)
        ensures
            r == self.spec_frac(),
            0 <= r < 65536,
    {
        if self.raw >= 0 {
            self.raw % ONE
        } else {
            ONE - 1 - ((-(self.raw + 1)) % ONE)
        }
    }

    /// The number rounded toward zero.
    pub fn trunc(self) -> (r: i64)
        ensures
            r == self.spec_trunc(),
    {
        if self.raw >= 0 {
            self.raw / ONE
        } else {
            -((-(self.raw + 1)) / ONE) - if (-(self.raw + 1)) % ONE == ONE - 1 { 1i64 } else { 0i64 }
        }
    }

    /// Sum of two numbers, saturating at both ends of the range.
    pub fn saturating_add(self, other: Fixed) -> (r: Fixed)
        ensures
            r == self.spec_saturating_add(other),
    {
        let sum: i128 = self.raw as i128 + other.raw as i128;
        if sum > i64::MAX as i128 {
            Fixed { raw: i64::MAX }
        } else if sum < i64::MIN as i128 {
            Fixed { raw: i64::MIN }
        } else {
            Fixed { raw: sum as i64 }
        }
    }
}

} // verus!
