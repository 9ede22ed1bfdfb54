//! Numbers that scale tensors, kept as the bit patterns and formulas that define them.

use vstd::prelude::*;

verus! {

/// An IEEE 754 binary64 number, given by its bit pattern.
#[derive(Clone, Copy, PartialEq, Eq, Structural, Debug)]
pub struct Real {
    pub bits: u64,
}

/// The pattern of 0.
pub const ZERO_BITS: u64 = 0x0000_0000_0000_0000;

/// The pattern of 1.
pub const ONE_BITS: u64 = 0x3FF0_0000_0000_0000;

/// The pattern of -1.
pub const MINUS_ONE_BITS: u64 = 0xBFF0_0000_0000_0000;

/// The pattern of 2.
pub const TWO_BITS: u64 = 0x4000_0000_0000_0000;

/// The pattern of 4.
pub const FOUR_BITS: u64 = 0x4010_0000_0000_0000;

/// The pattern of positive infinity.
pub const INFINITY_BITS: u64 = 0x7FF0_0000_0000_0000;

/// The pattern of the least finite binary32 number, -3.4028234663852886e38.
pub const LEAST_SINGLE_BITS: u64 = 0xC7EF_FFFF_E000_0000;

/// The pattern of 1 - 2^-25, the least number that is 1 when rounded to binary32.
pub const NEARLY_ONE_BITS: u64 = 0x3FEF_FFFF_F000_0000;

impl Real {
    /// Whether the number, rounded to binary32, is a probability below one: the sign bit is clear
    /// and the pattern lies below that of the least number that is rounded to one.
    pub open spec fn spec_is_rate(self) -> bool {
        self.bits < NEARLY_ONE_BITS
    }

    /// Whether the number, rounded to binary32, is a probability below one.
    pub fn is_rate(self) -> (r: bool)
        ensures
            r == self.spec_is_rate(),
    {
        self.bits < NEARLY_ONE_BITS
    }

    /// Whether the number is greater than zero: the sign bit is clear, the pattern is neither that
    /// of zero nor above that of positive infinity, where the patterns that are no numbers lie.
    pub open spec fn spec_is_positive(self) -> bool {
        0 < self.bits <= INFINITY_BITS
    }

    /// Whether the number is greater than zero.
    pub fn is_positive(self) -> (r: bool)
        ensures
            r == self.spec_is_positive(),
    {
        0 < self.bits && self.bits <= INFINITY_BITS
    }
}

/// A factor, summand or bound of a tensor operation. Evaluating one is binary64 arithmetic.
#[derive(Clone, Copy, PartialEq, Eq, Structural, Debug)]
pub enum Scalar {
    /// `x`
    Value(Real),
    /// `-x`
    Negated(Real),
    /// `1 / x`
    Reciprocal(Real),
    /// `x - (-x)`
    Span(Real),
    /// `n - 1`
    LastIndex(usize),
    /// `1 / n`
    OverCount(usize),
    /// The square root of `n`.
    Sqrt(usize),
    /// `n` to the power of -1/2.
    InverseSqrt(usize),
    /// One divided by the square root of `n`.
    OverSqrt(usize),
    /// `1 - x * n`
    Remainder(Real, usize),
    /// The logarithm of `exp(1 - x) - 1`.
    SoftplusInverse(Real),
}

/// The scalar with the given pattern.
pub open spec fn scalar(bits: u64) -> Scalar {
    Scalar::Value(Real { bits })
}

/// The scalar with the given pattern.
pub fn value_of(bits: u64) -> (r: Scalar)
    ensures
        r == scalar(bits),
{
    Scalar::Value(Real { bits })
}

} // verus!
