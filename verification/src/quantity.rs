//! Single-precision measurements held by their IEEE-754 bit pattern.
//!
//! Decay data are measured values: energies in keV, intensities and
//! branching ratios in percent, half-lives in seconds. The library never
//! does arithmetic on them. It only ever needs to know whether a value is
//! present, how two values are ordered, and whether they are numerically
//! equal. All three questions have exact answers on the bit pattern, so a
//! measurement is stored as the 32 bits of its binary32 encoding.

use vstd::prelude::*;

verus! {

/// Bit pattern of positive infinity; every larger magnitude is a NaN.
pub const INFINITY_BITS: u32 = 0x7f80_0000;

/// The sign bit of a binary32 value.
pub const SIGN_BIT: u32 = 0x8000_0000;

/// Bit pattern of `-1`.
pub const MINUS_ONE: u32 = 0xbf80_0000;

/// Bit pattern of `0`.
pub const ZERO: u32 = 0x0000_0000;

/// Bit pattern of `1e-9`.
pub const NANO: u32 = 0x3089_705f;

/// Bit pattern of `1e-6`.
pub const MICRO: u32 = 0x3586_37bd;

/// Bit pattern of `1e-3`.
pub const MILLI: u32 = 0x3a83_126f;

/// Bit pattern of `1`.
pub const ONE: u32 = 0x3f80_0000;

/// Bit pattern of `10`.
pub const TEN: u32 = 0x4120_0000;

/// Bit pattern of `100`.
pub const HUNDRED: u32 = 0x42c8_0000;

/// Bit pattern of `60`, the seconds in a minute.
pub const MINUTE: u32 = 0x4270_0000;

/// Bit pattern of `3600`, the seconds in an hour.
pub const HOUR: u32 = 0x4561_0000;

/// Bit pattern of `86400`, the seconds in a day.
pub const DAY: u32 = 0x47a8_c000;

/// Bit pattern of `31536000`, the seconds in a year of 365 days.
pub const YEAR: u32 = 0x4bf0_99c0;

/// Bit pattern of `3153600000`, the seconds in a hundred years.
pub const CENTURY: u32 = 0x4f3b_f81e;

/// The magnitude field of a bit pattern: everything but the sign.
pub open spec fn magnitude_of(bits: u32) -> int {
    if bits >= SIGN_BIT {
        bits - SIGN_BIT
    } else {
        bits as int
    }
}

/// Whether a bit pattern encodes a NaN.
pub open spec fn is_nan_bits(bits: u32) -> bool {
    magnitude_of(bits) > INFINITY_BITS
}

/// Position of a bit pattern on the number line.
///
/// Binary32 is sign-magnitude, and the magnitudes of two non-negative
/// values compare as the values do. Mirroring the negative half gives an
/// integer that orders every non-NaN pattern as its value, with the two
/// zeros at the same place.
pub open spec fn key_of(bits: u32) -> int {
    if bits >= SIGN_BIT {
        -(bits - SIGN_BIT)
    } else {
        bits as int
    }
}

/// A measured value. Never a NaN.
#[derive(Clone, Copy, Debug)]
pub struct Quantity {
    bits: u32,
}

impl Quantity {
    /// The binary32 encoding of the value.
    pub closed spec fn bits(self) -> u32 {
        self.bits
    }

    /// Whether the value is a number, which every constructed value is.
    pub open spec fn is_number(self) -> bool {
        !is_nan_bits(self.bits())
    }

    /// Position of the value on the number line: `a` is less than `b`
    /// exactly when `a.key() < b.key()`, and numerically equal to it
    /// exactly when the keys are equal.
    pub open spec fn key(self) -> int {
        key_of(self.bits())
    }

    /// Wraps a bit pattern, unless it encodes a NaN.
    pub fn from_bits(bits: u32) -> (out: Option<Quantity>)
        ensures
            out is Some <==> !is_nan_bits(bits),
            out is Some ==> out->0.bits() == bits && out->0.is_number(),
    {
        let magnitude: u32 = if bits >= SIGN_BIT {
            bits - SIGN_BIT
        } else {
            bits
        };
        if magnitude > INFINITY_BITS {
            None
        } else {
            Some(Quantity { bits })
        }
    }

    /// The bit pattern, to hand to whoever prints or computes with it.
    pub fn to_bits(&self) -> (out: u32)
        ensures
            out == self.bits(),
    {
        self.bits
    }

    /// The position on the number line, as a machine integer.
    pub fn order_key(&self) -> (out: i64)
        ensures
            out == self.key(),
    {
        if self.bits >= SIGN_BIT {
            let magnitude: u32 = self.bits - SIGN_BIT;
            0 - (magnitude as i64)
        } else {
            self.bits as i64
        }
    }

    /// Numeric equality: `0` and `-0` are the same value.
    pub fn same(&self, other: &Quantity) -> (out: bool)
        ensures
            out == (self.key() == other.key()),
    {
        self.order_key() == other.order_key()
    }

    /// Strictly greater than `other`.
    pub fn exceeds(&self, other: &Quantity) -> (out: bool)
        ensures
            out == (self.key() > other.key()),
    {
        self.order_key() > other.order_key()
    }

    /// At least the value whose bit pattern is `threshold`.
    pub fn at_least(&self, threshold: u32) -> (out: bool)
        ensures
            out == (self.key() >= key_of(threshold)),
    {
        let limit: i64 = if threshold >= SIGN_BIT {
            let magnitude: u32 = threshold - SIGN_BIT;
            0 - (magnitude as i64)
        } else {
            threshold as i64
        };
        self.order_key() >= limit
    }

    /// Whether the value is zero, of either sign.
    pub fn is_zero(&self) -> (out: bool)
        ensures
            out == (self.key() == 0),
    {
        self.order_key() == 0
    }
}

/// The order key of an optional value, with a stand-in for a missing one.
pub open spec fn key_or(value: Option<Quantity>, missing: int) -> int {
    match value {
        Some(q) => q.key(),
        None => missing,
    }
}

} // verus!
