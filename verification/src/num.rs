//! Measured numbers as far as decisions depend on them: their order, their
//! size and their sign.
//!
//! A `Num` is an IEEE 754 binary64 value held as its bit pattern. Apart from
//! the sign bit, larger patterns are larger magnitudes, so that comparing two
//! values is integer arithmetic. The arithmetic that produces the values is
//! left to the callers.

use vstd::prelude::*;

verus! {

/// The pattern with the sign bit alone.
pub const SIGN: u64 = 0x8000_0000_0000_0000;

/// The pattern of positive infinity; every larger magnitude is not a number.
pub const INFINITE: u64 = 0x7ff0_0000_0000_0000;

/// A binary64 value, held as its bit pattern.
#[derive(Clone, Copy, Debug, PartialEq, Eq, Structural)]
pub struct Num {
    pub bits: u64,
}

impl Num {
    /// The pattern without the sign bit: the absolute value's own pattern.
    pub open spec fn magnitude(self) -> int {
        if self.bits >= SIGN {
            self.bits - SIGN
        } else {
            self.bits as int
        }
    }

    pub open spec fn is_nan(self) -> bool {
        self.magnitude() > INFINITE
    }

    /// An integer that orders the values that are numbers; both zeros give 0.
    pub open spec fn rank(self) -> int {
        if self.bits >= SIGN {
            -self.magnitude()
        } else {
            self.magnitude()
        }
    }

    /// `self < other`; false where either is not a number.
    pub open spec fn lt(self, other: Num) -> bool {
        !self.is_nan() && !other.is_nan() && self.rank() < other.rank()
    }

    /// `self <= other`; false where either is not a number.
    pub open spec fn le(self, other: Num) -> bool {
        !self.is_nan() && !other.is_nan() && self.rank() <= other.rank()
    }

    /// The absolute value.
    pub open spec fn abs_spec(self) -> Num {
        Num { bits: self.magnitude() as u64 }
    }

    /// The value zero.
    pub open spec fn zero_spec() -> Num {
        Num { bits: 0 }
    }

    /// The value zero.
    pub fn zero() -> (r: Num)
        ensures
            r == Num::zero_spec(),
    {
        Num { bits: 0 }
    }

    /// The absolute value.
    pub fn abs(self) -> (r: Num)
        ensures
            r == self.abs_spec(),
    {
        if self.bits >= SIGN {
            Num { bits: self.bits - SIGN }
        } else {
            self
        }
    }

    /// Whether the value is not a number.
    pub fn nan(self) -> (r: bool)
        ensures
            r == self.is_nan(),
    {
        self.abs().bits > INFINITE
    }

    /// Whether the value is neither infinite nor not a number.
    pub fn finite(self) -> (r: bool)
        ensures
            r == (self.magnitude() < INFINITE),
    {
        self.abs().bits < INFINITE
    }

    /// Whether `self < other`.
    pub fn less(self, other: Num) -> (r: bool)
        ensures
            r == self.lt(other),
    {
        if self.nan() || other.nan() {
            return false;
        }
        let neg_a: bool = self.bits >= SIGN;
        let neg_b: bool = other.bits >= SIGN;
        let a: u64 = self.abs().bits;
        let b: u64 = other.abs().bits;
        if neg_a && neg_b {
            b < a
        } else if neg_a {
            a > 0 || b > 0
        } else if neg_b {
            false
        } else {
            a < b
        }
    }

    /// Whether `self <= other`.
    pub fn at_most(self, other: Num) -> (r: bool)
        ensures
            r == self.le(other),
    {
        !self.nan() && !other.nan() && !other.less(self)
    }
}

/// The order on values is irreflexive and transitive, and on values that are
/// numbers it is total up to equal rank.
pub proof fn law_values_are_ordered(a: Num, b: Num, c: Num)
    ensures
        !a.lt(a),
        a.lt(b) && b.lt(c) ==> a.lt(c),
        a.lt(b) ==> !b.lt(a),
        !a.is_nan() && !b.is_nan() ==> (a.lt(b) || b.lt(a) || a.rank() == b.rank()),
{
}

/// An absolute value is never below zero, and taking it twice changes nothing.
pub proof fn law_absolute_values(a: Num)
    ensures
        !a.abs_spec().lt(Num::zero_spec()),
        a.abs_spec().abs_spec() == a.abs_spec(),
        a.abs_spec().is_nan() == a.is_nan(),
{
}

} // verus!
