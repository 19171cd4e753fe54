//! IEEE 754 binary64 numbers as bit patterns.
//!
//! The pattern has one sign bit, eleven exponent bits and fifty-two
//! fraction bits. Everything here is read off the pattern with integer
//! arithmetic: the class of the number, its absolute value and how two
//! numbers are ordered.

use vstd::prelude::*;

verus! {

/// The pattern whose only set bit is the sign bit.
pub const SIGN_BIT: u64 = 0x8000_0000_0000_0000;

/// The pattern of positive infinity: all exponent bits set, no fraction bit.
pub const INFINITY_BITS: u64 = 0x7ff0_0000_0000_0000;

/// A binary64 number, held as its bit pattern.
///
/// Two of them are `==` when their patterns are the same, so a NaN equals
/// itself and the two zeros differ; `compare` is the comparison of the
/// numbers.
#[derive(Clone, Copy, Debug, PartialEq, Eq, Structural)]
pub struct Binary64 {
    pub bits: u64,
}

/// How one number stands to another.
#[derive(Clone, Copy, Debug, PartialEq, Eq, Structural)]
pub enum Comparison {
    Less,
    Equal,
    Greater,
}

impl Binary64 {
    /// Whether the sign bit is set.
    pub open spec fn sign_negative(self) -> bool {
        self.bits >= SIGN_BIT
    }

    /// The pattern with its sign bit cleared.
    pub open spec fn magnitude_bits(self) -> u64 {
        if self.bits >= SIGN_BIT {
            (self.bits - SIGN_BIT) as u64
        } else {
            self.bits
        }
    }

    /// Not a number: all exponent bits set and some fraction bit set.
    pub open spec fn spec_is_nan(self) -> bool {
        self.magnitude_bits() > INFINITY_BITS
    }

    /// Positive or negative infinity.
    pub open spec fn spec_is_infinite(self) -> bool {
        self.magnitude_bits() == INFINITY_BITS
    }

    /// Zero, subnormal or normal.
    pub open spec fn spec_is_finite(self) -> bool {
        self.magnitude_bits() < INFINITY_BITS
    }

    /// An integer that orders the numbers as their values do.
    ///
    /// Among patterns of one sign a larger magnitude pattern is a larger
    /// absolute value, so the signed magnitude pattern orders all numbers
    /// that are not NaN; both zeros have key 0.
    pub open spec fn order_key(self) -> int {
        if self.sign_negative() {
            -(self.magnitude_bits() as int)
        } else {
            self.magnitude_bits() as int
        }
    }

    /// The comparison of two numbers: none when either is NaN, else by
    /// `order_key`.
    pub open spec fn spec_compare(self, other: Binary64) -> Option<Comparison> {
        if self.spec_is_nan() || other.spec_is_nan() {
            None
        } else if self.order_key() < other.order_key() {
            Some(Comparison::Less)
        } else if self.order_key() == other.order_key() {
            Some(Comparison::Equal)
        } else {
            Some(Comparison::Greater)
        }
    }

    /// The absolute value: the same pattern with the sign bit cleared.
    pub open spec fn spec_abs(self) -> Binary64 {
        Binary64 { bits: self.magnitude_bits() }
    }

    /// The number with the given pattern.
    pub fn from_bits(bits: u64) -> (value: Binary64)
        ensures
            value.bits == bits,
    {
        Binary64 { bits }
    }

    /// The pattern of the number.
    pub fn to_bits(self) -> (bits: u64)
        ensures
            bits == self.bits,
    {
        self.bits
    }

    /// The pattern with its sign bit cleared.
    #[verifier::when_used_as_spec(magnitude_bits)]
    pub fn unsigned_bits(self) -> (m: u64)
        ensures
            m == self.magnitude_bits(),
    {
        if self.bits >= SIGN_BIT {
            self.bits - SIGN_BIT
        } else {
            self.bits
        }
    }

    /// Whether the number is NaN.
    #[verifier::when_used_as_spec(spec_is_nan)]
    pub fn is_nan(self) -> (nan: bool)
        ensures
            nan == self.spec_is_nan(),
    {
        self.unsigned_bits() > INFINITY_BITS
    }

    /// Whether the number is positive or negative infinity.
    #[verifier::when_used_as_spec(spec_is_infinite)]
    pub fn is_infinite(self) -> (infinite: bool)
        ensures
            infinite == self.spec_is_infinite(),
    {
        self.unsigned_bits() == INFINITY_BITS
    }

    /// Whether the number is zero, subnormal or normal.
    #[verifier::when_used_as_spec(spec_is_finite)]
    pub fn is_finite(self) -> (finite: bool)
        ensures
            finite == self.spec_is_finite(),
    {
        self.unsigned_bits() < INFINITY_BITS
    }

    /// The absolute value of the number.
    #[verifier::when_used_as_spec(spec_abs)]
    pub fn abs(self) -> (value: Binary64)
        ensures
            value == self.spec_abs(),
    {
        Binary64 { bits: self.unsigned_bits() }
    }

    /// Compares two numbers as IEEE 754 does: a NaN compares with nothing,
    /// the two zeros are equal, and otherwise the values decide.
    #[verifier::when_used_as_spec(spec_compare)]
    pub fn compare(self, other: Binary64) -> (relation: Option<Comparison>)
        ensures
            relation == self.spec_compare(other),
    {
        if self.is_nan() || other.is_nan() {
            return None;
        }
        let a: u64 = self.unsigned_bits();
        let b: u64 = other.unsigned_bits();
        let a_negative = self.bits >= SIGN_BIT;
        let b_negative = other.bits >= SIGN_BIT;
        let relation = if a_negative == b_negative {
            if a == b {
                Comparison::Equal
            } else if (a < b) != a_negative {
                Comparison::Less
            } else {
                Comparison::Greater
            }
        } else if a == 0 && b == 0 {
            Comparison::Equal
        } else if a_negative {
            Comparison::Less
        } else {
            Comparison::Greater
        };
        Some(relation)
    }

    /// Whether `self` is strictly greater than `other`; false when either
    /// is NaN.
    pub fn exceeds(self, other: Binary64) -> (greater: bool)
        ensures
            greater == (self.spec_compare(other) == Some(Comparison::Greater)),
    {
        match self.compare(other) {
            Some(Comparison::Greater) => true,
            _ => false,
        }
    }
}

} // verus!
