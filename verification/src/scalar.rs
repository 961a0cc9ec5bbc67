//! Single-precision values held as their bit patterns.
//!
//! The engine stores and compares control values, ranges and samples but never
//! does arithmetic on them, so it keeps each one as the 32 bits of its IEEE-754
//! encoding. Order is read off the bits: the low 31 bits are the magnitude, the
//! top bit is the sign, and magnitudes above that of infinity are not numbers.

use vstd::prelude::*;

verus! {

/// A single-precision value, by its IEEE-754 bit pattern.
#[derive(Clone, Copy, Debug, PartialEq, Eq, Structural)]
pub struct Scalar {
    pub bits: u32,
}

/// The bit that carries the sign.
pub const SIGN_BIT: u32 = 0x8000_0000;

/// The magnitude of infinity; any larger magnitude is not a number.
pub const INFINITY_MAGNITUDE: u32 = 0x7F80_0000;

/// The bits of `0.0`.
pub const ZERO_BITS: u32 = 0;

/// The bits of `1.0`.
pub const ONE_BITS: u32 = 0x3F80_0000;

/// The bits of `-1.0`.
pub const MINUS_ONE_BITS: u32 = 0xBF80_0000;

impl Scalar {
    /// The low 31 bits: the encoding of the absolute value.
    pub open spec fn magnitude(self) -> int {
        self.bits as int % 0x8000_0000
    }

    /// The sign bit is set.
    pub open spec fn is_negative(self) -> bool {
        self.bits >= 0x8000_0000
    }

    /// The pattern encodes no number.
    pub open spec fn is_nan(self) -> bool {
        self.magnitude() > 0x7F80_0000
    }

    /// An integer that orders numbers as their values are ordered. Both zeros
    /// have key 0.
    pub open spec fn key(self) -> int {
        if self.is_negative() {
            -self.magnitude()
        } else {
            self.magnitude()
        }
    }

    /// `self <= other` as IEEE-754 defines it: false if either is not a number.
    pub open spec fn le_spec(self, other: Scalar) -> bool {
        !self.is_nan() && !other.is_nan() && self.key() <= other.key()
    }

    /// `low <= self <= high`.
    pub open spec fn within(self, low: Scalar, high: Scalar) -> bool {
        low.le_spec(self) && self.le_spec(high)
    }

    /// `-1.0 <= self <= 1.0`.
    pub open spec fn in_unit_range(self) -> bool {
        self.magnitude() <= 0x3F80_0000
    }

    pub fn from_bits(bits: u32) -> (s: Scalar)
        ensures
            s.bits == bits,
    {
        Scalar { bits }
    }

    pub fn to_bits(self) -> (bits: u32)
        ensures
            bits == self.bits,
    {
        self.bits
    }

    pub fn zero() -> (s: Scalar)
        ensures
            s.bits == ZERO_BITS,
    {
        Scalar { bits: ZERO_BITS }
    }

    pub fn one() -> (s: Scalar)
        ensures
            s.bits == ONE_BITS,
    {
        Scalar { bits: ONE_BITS }
    }

    pub fn minus_one() -> (s: Scalar)
        ensures
            s.bits == MINUS_ONE_BITS,
    {
        Scalar { bits: MINUS_ONE_BITS }
    }

    /// Whether the pattern encodes no number.
    pub fn nan(self) -> (b: bool)
        ensures
            b == self.is_nan(),
    {
        self.bits % SIGN_BIT > INFINITY_MAGNITUDE
    }

    fn order_key(self) -> (k: i64)
        ensures
            k == self.key(),
    {
        let m: i64 = (self.bits % SIGN_BIT) as i64;
        if self.bits >= SIGN_BIT {
            -m
        } else {
            m
        }
    }

    /// `self <= other`; false if either is not a number.
    pub fn le(self, other: Scalar) -> (b: bool)
        ensures
            b == self.le_spec(other),
    {
        !self.nan() && !other.nan() && self.order_key() <= other.order_key()
    }

    /// `low <= self <= high`.
    pub fn is_within(self, low: Scalar, high: Scalar) -> (b: bool)
        ensures
            b == self.within(low, high),
    {
        low.le(self) && self.le(high)
    }

    /// `-1.0 <= self <= 1.0`.
    pub fn is_in_unit_range(self) -> (b: bool)
        ensures
            b == self.in_unit_range(),
    {
        self.bits % SIGN_BIT <= ONE_BITS
    }
}

/// Being in the unit range is being between `-1.0` and `1.0`.
pub proof fn lemma_unit_range(s: Scalar)
    ensures
        s.in_unit_range() <==> s.within(Scalar { bits: MINUS_ONE_BITS }, Scalar { bits: ONE_BITS }),
{
}

} // verus!
