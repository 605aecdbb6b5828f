//! Double-precision numbers, held by their bit patterns. The library compares and orders them;
//! it does no arithmetic on them.

use vstd::prelude::*;
use crate::order::Keyed;

verus! {

/// A double-precision number.
#[derive(Clone, Copy, PartialEq, Eq, Structural, Debug)]
pub struct Scalar {
    /// Sign, exponent and fraction, as IEEE 754 lays them out.
    pub bits: u64,
}

pub const SIGN: u64 = 0x8000_0000_0000_0000;

/// The pattern of infinity: those above it, up to the sign, are no numbers.
pub const INFINITY: u64 = 0x7ff0_0000_0000_0000;

impl Scalar {
    /// Not a number.
    pub open spec fn is_nan(self) -> bool {
        if self.bits < SIGN {
            self.bits > INFINITY
        } else {
            self.bits - SIGN > INFINITY
        }
    }

    /// The place in the order of the numbers; the two zeros share one.
    pub open spec fn rank(self) -> int {
        if self.bits < SIGN {
            self.bits as int
        } else {
            SIGN - self.bits
        }
    }

    /// `self < other`, as numbers.
    pub open spec fn below(self, other: Scalar) -> bool {
        !self.is_nan() && !other.is_nan() && self.rank() < other.rank()
    }

    /// `self >= other`, as numbers.
    pub open spec fn at_least(self, other: Scalar) -> bool {
        !self.is_nan() && !other.is_nan() && self.rank() >= other.rank()
    }

    /// `self == 0`, as numbers.
    pub open spec fn zero(self) -> bool {
        self.rank() == 0
    }

    /// `self > 0`, as numbers.
    pub open spec fn positive(self) -> bool {
        !self.is_nan() && self.rank() > 0
    }

    /// The number of that bit pattern.
    pub fn from_bits(bits: u64) -> (r: Scalar)
        ensures
            r.bits == bits,
    {
        Scalar { bits }
    }

    pub fn to_bits(self) -> (r: u64)
        ensures
            r == self.bits,
    {
        self.bits
    }

    pub fn nan(self) -> (r: bool)
        ensures
            r == self.is_nan(),
    {
        if self.bits < SIGN {
            self.bits > INFINITY
        } else {
            self.bits - SIGN > INFINITY
        }
    }

    /// The place in the order of the numbers.
    pub fn order(self) -> (r: i64)
        ensures
            r == self.rank(),
    {
        if self.bits < SIGN {
            self.bits as i64
        } else {
            let m: u64 = self.bits - SIGN;
            0 - (m as i64)
        }
    }

    pub fn lt(self, other: Scalar) -> (r: bool)
        ensures
            r == self.below(other),
    {
        !self.nan() && !other.nan() && self.order() < other.order()
    }

    pub fn ge(self, other: Scalar) -> (r: bool)
        ensures
            r == self.at_least(other),
    {
        !self.nan() && !other.nan() && self.order() >= other.order()
    }

    pub fn is_zero(self) -> (r: bool)
        ensures
            r == self.zero(),
    {
        self.order() == 0
    }

    pub fn is_positive(self) -> (r: bool)
        ensures
            r == self.positive(),
    {
        !self.nan() && self.order() > 0
    }
}

impl Keyed for Scalar {
    open spec fn key(&self) -> int {
        self.rank()
    }

    fn key_of(&self) -> (r: i64) {
        self.order()
    }
}

/// Numbers are below, at or above each other, and only one of these.
pub proof fn numbers_are_ordered(a: Scalar, b: Scalar)
    requires
        !a.is_nan(),
        !b.is_nan(),
    ensures
        a.below(b) != a.at_least(b),
        a.at_least(b) && b.at_least(a) <==> a.rank() == b.rank(),
{
}

/// Numbers of one rank have one bit pattern, except for the two zeros.
pub proof fn rank_tells_numbers_apart(a: Scalar, b: Scalar)
    requires
        a.rank() == b.rank(),
        !a.zero(),
    ensures
        a == b,
{
}

/// The sign turns the order round: of two numbers with the sign, the one is below the other where
/// without it it is above. The two zeros are equal, a number with the sign is never above one
/// without it, and what is no number is neither below, nor at, nor above anything.
pub proof fn sign_turns_the_order(a: Scalar, b: Scalar)
    requires
        a.bits < 0x8000_0000_0000_0000,
        b.bits < 0x8000_0000_0000_0000,
        !a.is_nan(),
        !b.is_nan(),
    ensures
        ({
            let minus_a = Scalar { bits: (a.bits + 0x8000_0000_0000_0000) as u64 };
            let minus_b = Scalar { bits: (b.bits + 0x8000_0000_0000_0000) as u64 };
            &&& a.below(b) <==> a.bits < b.bits
            &&& a.at_least(b) <==> a.bits >= b.bits
            &&& minus_a.below(minus_b) <==> b.below(a)
            &&& b.at_least(minus_a)
            &&& minus_a.at_least(b) <==> a.bits == 0 && b.bits == 0
            &&& a.zero() <==> a.bits == 0
            &&& minus_a.zero() <==> a.bits == 0
            &&& a.positive() <==> a.bits > 0
            &&& !minus_a.positive()
        }),
{
}

/// The patterns above that of infinity are no numbers, with the sign or without it; these compare
/// with nothing.
pub proof fn patterns_above_infinity_are_no_numbers(a: Scalar, b: Scalar)
    ensures
        a.is_nan() <==> 0x7ff0_0000_0000_0000 < a.bits < 0x8000_0000_0000_0000 || a.bits > 0xfff0_0000_0000_0000,
        a.is_nan() ==> !a.below(b) && !b.below(a) && !a.at_least(b) && !b.at_least(a) && !a.positive() && !a.zero(),
{
}

} // verus!
