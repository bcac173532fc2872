//! Floating-point numbers carried by their bit patterns.
//!
//! The router stores and compares a handful of IEEE 754 numbers and never does
//! arithmetic on them. Holding the bit pattern keeps every comparison exact: two
//! numbers of one width that are not NaN are ordered as their sign-and-magnitude
//! integers are.

use vstd::prelude::*;

verus! {

/// A single-precision number, by its bit pattern.
#[derive(Clone, Copy, Debug, PartialEq, Eq, Structural)]
pub struct Real32 {
    /// The IEEE 754 binary32 encoding.
    pub bits: u32,
}

/// A double-precision number, by its bit pattern.
#[derive(Clone, Copy, Debug, PartialEq, Eq, Structural)]
pub struct Real64 {
    /// The IEEE 754 binary64 encoding.
    pub bits: u64,
}

impl Real32 {
    /// The encoding without its sign bit.
    pub open spec fn magnitude(self) -> int {
        if self.bits >= 0x8000_0000 {
            self.bits - 0x8000_0000
        } else {
            self.bits as int
        }
    }

    /// Where the number stands among all numbers that are not NaN.
    pub open spec fn rank(self) -> int {
        if self.bits >= 0x8000_0000 {
            -self.magnitude()
        } else {
            self.magnitude()
        }
    }

    /// Neither infinite nor NaN.
    pub open spec fn finite(self) -> bool {
        self.magnitude() < 0x7f80_0000
    }

    /// Not a number.
    pub open spec fn nan(self) -> bool {
        self.magnitude() > 0x7f80_0000
    }

    /// IEEE less-than: false as soon as either side is NaN.
    pub open spec fn below(self, other: Real32) -> bool {
        !self.nan() && !other.nan() && self.rank() < other.rank()
    }

    /// The number 0.
    pub open spec fn spec_zero() -> Real32 {
        Real32 { bits: 0 }
    }

    /// The number 1.
    pub open spec fn spec_one() -> Real32 {
        Real32 { bits: 0x3f80_0000 }
    }

    /// The number 0.
    pub fn zero() -> (r: Real32)
        ensures
            r == Real32::spec_zero(),
    {
        Real32 { bits: 0 }
    }

    /// The number 1.
    pub fn one() -> (r: Real32)
        ensures
            r == Real32::spec_one(),
    {
        Real32 { bits: 0x3f80_0000 }
    }

    /// True when the number is neither infinite nor NaN.
    pub fn is_finite(self) -> (r: bool)
        ensures
            r == self.finite(),
    {
        let magnitude: u32 = if self.bits >= 0x8000_0000 {
            self.bits - 0x8000_0000
        } else {
            self.bits
        };
        magnitude < 0x7f80_0000
    }

    /// IEEE less-than.
    pub fn is_below(self, other: Real32) -> (r: bool)
        ensures
            r == self.below(other),
    {
        let left: i64 = if self.bits >= 0x8000_0000 {
            -((self.bits - 0x8000_0000) as i64)
        } else {
            self.bits as i64
        };
        let right: i64 = if other.bits >= 0x8000_0000 {
            -((other.bits - 0x8000_0000) as i64)
        } else {
            other.bits as i64
        };
        let top: i64 = 0x7f80_0000;
        -top <= left && left <= top && -top <= right && right <= top && left < right
    }

    /// Where the number stands in the total order of all bit patterns: negative numbers first,
    /// a negative zero before a positive one, NaNs at the ends.
    pub open spec fn total_rank(self) -> int {
        if self.bits >= 0x8000_0000 {
            -1 - self.magnitude()
        } else {
            self.magnitude()
        }
    }

    /// Where the number stands in the total order of all bit patterns.
    pub fn total_position(self) -> (r: i64)
        ensures
            r == self.total_rank(),
    {
        if self.bits >= 0x8000_0000 {
            -1 - ((self.bits - 0x8000_0000) as i64)
        } else {
            self.bits as i64
        }
    }

    /// The whole-number significand of a normal number.
    pub open spec fn significand(self) -> int {
        0x80_0000 + self.magnitude() % 0x80_0000
    }

    /// The biased exponent: a normal number is its significand times two to the power of this,
    /// less 150.
    pub open spec fn exponent(self) -> int {
        self.magnitude() / 0x80_0000
    }

    /// True when the number lies in the closed unit interval.
    pub open spec fn in_unit_interval(self) -> bool {
        !self.nan() && 0 <= self.rank() <= Real32::spec_one().rank()
    }

    /// True when the number lies in the closed unit interval.
    pub fn is_in_unit_interval(self) -> (r: bool)
        ensures
            r == self.in_unit_interval(),
    {
        self.bits <= 0x3f80_0000 || self.bits == 0x8000_0000
    }

    /// The number pulled into the closed unit interval: itself when it is inside (negative
    /// zero included) or NaN, otherwise the nearer end.
    pub open spec fn clamped(self) -> Real32 {
        if self.nan() {
            self
        } else if self.rank() < 0 {
            Real32::spec_zero()
        } else if self.rank() > Real32::spec_one().rank() {
            Real32::spec_one()
        } else {
            self
        }
    }

    /// The number pulled into the closed unit interval.
    pub fn clamp_unit(self) -> (r: Real32)
        ensures
            r == self.clamped(),
    {
        if self.bits > 0x8000_0000 && self.bits <= 0xff80_0000 {
            Real32 { bits: 0 }
        } else if self.bits > 0x3f80_0000 && self.bits <= 0x7f80_0000 {
            Real32 { bits: 0x3f80_0000 }
        } else {
            self
        }
    }

    /// IEEE at-least: false as soon as either side is NaN.
    pub open spec fn at_least(self, other: Real32) -> bool {
        !self.nan() && !other.nan() && self.rank() >= other.rank()
    }

    /// IEEE at-least.
    pub fn is_at_least(self, other: Real32) -> (r: bool)
        ensures
            r == self.at_least(other),
    {
        !self.is_nan() && !other.is_nan() && !self.is_below(other)
    }

    /// True when the number is NaN.
    pub fn is_nan(self) -> (r: bool)
        ensures
            r == self.nan(),
    {
        (self.bits > 0x7f80_0000 && self.bits < 0x8000_0000) || self.bits > 0xff80_0000
    }

    /// True when the number is finite and greater than zero.
    pub open spec fn positive(self) -> bool {
        self.finite() && self.rank() > 0
    }

    /// True when the number is finite and greater than zero.
    pub fn is_positive(self) -> (r: bool)
        ensures
            r == self.positive(),
    {
        0 < self.bits && self.bits < 0x7f80_0000
    }
}

impl Real64 {
    /// The encoding without its sign bit.
    pub open spec fn magnitude(self) -> int {
        if self.bits >= 0x8000_0000_0000_0000 {
            self.bits - 0x8000_0000_0000_0000
        } else {
            self.bits as int
        }
    }

    /// Where the number stands among all numbers that are not NaN.
    pub open spec fn rank(self) -> int {
        if self.bits >= 0x8000_0000_0000_0000 {
            -self.magnitude()
        } else {
            self.magnitude()
        }
    }

    /// Neither infinite nor NaN.
    pub open spec fn finite(self) -> bool {
        self.magnitude() < 0x7ff0_0000_0000_0000
    }

    /// Not a number.
    pub open spec fn nan(self) -> bool {
        self.magnitude() > 0x7ff0_0000_0000_0000
    }

    /// True when the number is neither infinite nor NaN.
    pub fn is_finite(self) -> (r: bool)
        ensures
            r == self.finite(),
    {
        let magnitude: u64 = if self.bits >= 0x8000_0000_0000_0000 {
            self.bits - 0x8000_0000_0000_0000
        } else {
            self.bits
        };
        magnitude < 0x7ff0_0000_0000_0000
    }

    /// How the number prints when it is not finite.
    pub open spec fn special_text(self) -> Seq<char> {
        if self.nan() {
            "NaN"@
        } else if self.rank() > 0 {
            "inf"@
        } else {
            "-inf"@
        }
    }

    /// How the number prints when it is not finite.
    pub fn special_name(self) -> (r: &'static str)
        requires
            !self.finite(),
        ensures
            r@ == self.special_text(),
    {
        if self.bits == 0x7ff0_0000_0000_0000 {
            "inf"
        } else if self.bits == 0xfff0_0000_0000_0000 {
            "-inf"
        } else {
            "NaN"
        }
    }
}

/// Two single-precision numbers that are not NaN compare as their encodings do: upwards among
/// those without a sign, downwards among those with one, and a signed one is below an unsigned
/// one unless both are zero. Nothing is below or above a NaN.
pub proof fn comparison_goes_by_the_encoding(a: Real32, b: Real32)
    ensures
        a.bits <= 0x7f80_0000 && b.bits <= 0x7f80_0000 ==> {
            &&& a.below(b) <==> a.bits < b.bits
            &&& a.at_least(b) <==> a.bits >= b.bits
        },
        0x8000_0000 <= a.bits <= 0xff80_0000 && 0x8000_0000 <= b.bits <= 0xff80_0000 ==> {
            &&& a.below(b) <==> a.bits > b.bits
            &&& a.at_least(b) <==> a.bits <= b.bits
        },
        0x8000_0000 <= a.bits <= 0xff80_0000 && b.bits <= 0x7f80_0000 ==> {
            &&& a.below(b) <==> !(a.bits == 0x8000_0000 && b.bits == 0)
            &&& a.at_least(b) <==> a.bits == 0x8000_0000 && b.bits == 0
            &&& !b.below(a)
            &&& b.at_least(a)
        },
        0x7f80_0000 < a.bits < 0x8000_0000 || a.bits > 0xff80_0000 ==> {
            &&& !a.below(b)
            &&& !b.below(a)
            &&& !a.at_least(b)
            &&& !b.at_least(a)
        },
{
}

/// The numbers from 0 to 1 are the encodings up to that of 1, and negative zero. Pulling a number
/// into that interval leaves those as they are, takes everything above 1 to 1 and everything
/// below 0 to 0, and leaves a NaN.
pub proof fn the_unit_interval_by_its_encodings(a: Real32)
    ensures
        a.in_unit_interval() <==> a.bits <= 0x3f80_0000 || a.bits == 0x8000_0000,
        a.bits <= 0x3f80_0000 || a.bits == 0x8000_0000 ==> a.clamped() == a,
        0x3f80_0000 < a.bits <= 0x7f80_0000 ==> a.clamped().bits == 0x3f80_0000,
        0x8000_0000 < a.bits <= 0xff80_0000 ==> a.clamped().bits == 0,
        0x7f80_0000 < a.bits < 0x8000_0000 || a.bits > 0xff80_0000 ==> a.clamped() == a,
        a.finite() <==> a.bits < 0x7f80_0000 || 0x8000_0000 <= a.bits < 0xff80_0000,
        a.positive() <==> 0 < a.bits < 0x7f80_0000,
        Real32::spec_zero().bits == 0,
        Real32::spec_one().bits == 0x3f80_0000,
{
}

/// Two encodings stand at one place of the total order only when they are the same; where two
/// numbers compare, their places do too.
pub proof fn the_total_order_tells_encodings_apart(a: Real32, b: Real32)
    ensures
        a.total_rank() == b.total_rank() ==> a == b,
        a.below(b) ==> a.total_rank() < b.total_rank(),
{
}

} // verus!
