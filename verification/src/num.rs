//! Binary64 quantities carried by their bit patterns.
//!
//! Prices and percentages are IEEE 754 double-precision numbers. The verified
//! code never does arithmetic on them: it moves them, selects among them and
//! classifies them, all of which can be said exactly over the 64 bits.

use vstd::prelude::*;

verus! {

/// Bits of the sign of a binary64 number.
pub const SIGN_BIT: u64 = 0x8000_0000_0000_0000;

/// Bit pattern of positive infinity; every larger unsigned pattern with a
/// clear sign bit is a NaN.
pub const INFINITY_BITS: u64 = 0x7FF0_0000_0000_0000;

/// Bit pattern of `100.0`.
pub const HUNDRED_BITS: u64 = 0x4059_0000_0000_0000;

/// A binary64 number, held as its bit pattern.
#[derive(Clone, Copy, Debug, PartialEq, Eq, Structural)]
pub struct Double {
    pub bits: u64,
}

impl Double {
    /// Whether the number compares greater than zero: the sign bit is clear
    /// and the rest is neither zero nor a NaN.
    pub open spec fn positive(self) -> bool {
        0 < self.bits <= INFINITY_BITS
    }

    /// Whether the number compares equal to zero: positive or negative zero.
    pub open spec fn zero(self) -> bool {
        self.bits == 0 || self.bits == SIGN_BIT
    }

    /// Whether the bits are those of a NaN.
    pub open spec fn nan(self) -> bool {
        self.bits & !SIGN_BIT > INFINITY_BITS
    }

    /// An integer that orders numbers as their values do: of two numbers
    /// that are not NaN, the greater has the greater key, and equal numbers,
    /// the two zeros among them, have equal keys.
    pub open spec fn order_key(self) -> int {
        if self.bits < SIGN_BIT {
            self.bits as int
        } else {
            SIGN_BIT - self.bits
        }
    }

    /// The number `100.0`.
    pub open spec fn hundred() -> Double {
        Double { bits: HUNDRED_BITS }
    }

    pub fn from_bits(bits: u64) -> (d: Double)
        ensures
            d.bits == bits,
    {
        Double { bits }
    }

    pub fn to_bits(&self) -> (bits: u64)
        ensures
            bits == self.bits,
    {
        self.bits
    }

    pub fn is_positive(&self) -> (b: bool)
        ensures
            b == self.positive(),
    {
        0 < self.bits && self.bits <= INFINITY_BITS
    }

    pub fn is_nan(&self) -> (b: bool)
        ensures
            b == self.nan(),
    {
        self.bits & !SIGN_BIT > INFINITY_BITS
    }

    /// The integer by which the number is ordered.
    pub fn key(&self) -> (k: i128)
        ensures
            k == self.order_key(),
    {
        if self.bits < SIGN_BIT {
            self.bits as i128
        } else {
            SIGN_BIT as i128 - self.bits as i128
        }
    }

    pub fn is_zero(&self) -> (b: bool)
        ensures
            b == self.zero(),
    {
        self.bits == 0 || self.bits == SIGN_BIT
    }
}

/// The order key agrees with the classification: a number is positive
/// exactly when its key is, and zero exactly when its key is.
pub proof fn lemma_key_sign(d: Double)
    requires
        !d.nan(),
    ensures
        d.positive() <==> d.order_key() > 0,
        d.zero() <==> d.order_key() == 0,
{
    let bits = d.bits;
    assert(bits < 0x8000_0000_0000_0000u64 ==> bits & !0x8000_0000_0000_0000u64 == bits)
        by (bit_vector);
}

} // verus!
