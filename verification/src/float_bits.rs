//! Floating-point numbers by their bits: how they are ordered, without any arithmetic.
use vstd::prelude::*;

verus! {

/// A double-precision number, by the bits of its IEEE 754 form.
#[derive(Debug, Clone, Copy, PartialEq, Eq, Structural)]
pub struct F64Bits {
    pub bits: u64,
}

/// A single-precision number, by the bits of its IEEE 754 form.
#[derive(Debug, Clone, Copy, PartialEq, Eq, Structural)]
pub struct F32Bits {
    pub bits: u32,
}

/// The bits of the largest finite single-precision number.
pub const F32_MAX: u32 = 0x7f7f_ffff;

/// The bits of the smallest finite single-precision number.
pub const F32_MIN: u32 = 0xff7f_ffff;

impl F64Bits {
    /// Not a number: the exponent is all ones and the fraction is not zero.
    pub open spec fn is_nan(self) -> bool {
        self.magnitude() > 0x7ff0_0000_0000_0000
    }

    /// The number without its sign; numbers that are farther from zero have larger magnitudes.
    pub open spec fn magnitude(self) -> int {
        if self.bits >= 0x8000_0000_0000_0000 {
            self.bits - 0x8000_0000_0000_0000
        } else {
            self.bits as int
        }
    }

    /// Where the number stands among all numbers: both zeros stand at zero.
    pub open spec fn rank(self) -> int {
        if self.bits >= 0x8000_0000_0000_0000 {
            -self.magnitude()
        } else {
            self.magnitude()
        }
    }

    /// Where the number stands in the total order, in which the negative zero comes before the
    /// positive one, and what is not a number stands at the ends.
    pub open spec fn total_rank(self) -> int {
        if self.bits >= 0x8000_0000_0000_0000 {
            -self.magnitude() - 1
        } else {
            self.magnitude()
        }
    }

    /// `self < other`; false where one of them is not a number.
    pub open spec fn spec_lt(self, other: F64Bits) -> bool {
        !self.is_nan() && !other.is_nan() && self.rank() < other.rank()
    }

    /// `self >= other`; false where one of them is not a number.
    pub open spec fn spec_ge(self, other: F64Bits) -> bool {
        !self.is_nan() && !other.is_nan() && self.rank() >= other.rank()
    }

    fn signed(self) -> (r: (i64, bool))
        ensures
            r.0 == self.rank(),
            r.1 == self.is_nan(),
    {
        if self.bits >= 0x8000_0000_0000_0000 {
            let m: u64 = self.bits - 0x8000_0000_0000_0000;
            (-(m as i64), m > 0x7ff0_0000_0000_0000)
        } else {
            (self.bits as i64, self.bits > 0x7ff0_0000_0000_0000)
        }
    }

    /// `self < other`; false where one of them is not a number.
    pub fn lt(self, other: F64Bits) -> (r: bool)
        ensures
            r == self.spec_lt(other),
    {
        let (a, a_nan) = self.signed();
        let (b, b_nan) = other.signed();
        !a_nan && !b_nan && a < b
    }

    /// `self >= other`; false where one of them is not a number.
    pub fn ge(self, other: F64Bits) -> (r: bool)
        ensures
            r == self.spec_ge(other),
    {
        let (a, a_nan) = self.signed();
        let (b, b_nan) = other.signed();
        !a_nan && !b_nan && a >= b
    }

    /// `self <= other`; false where one of them is not a number.
    pub open spec fn spec_le(self, other: F64Bits) -> bool {
        !self.is_nan() && !other.is_nan() && self.rank() <= other.rank()
    }

    /// `self <= other`; false where one of them is not a number.
    pub fn le(self, other: F64Bits) -> (r: bool)
        ensures
            r == self.spec_le(other),
    {
        let (a, a_nan) = self.signed();
        let (b, b_nan) = other.signed();
        !a_nan && !b_nan && a <= b
    }

    /// The number's place in the total order.
    pub fn total_key(self) -> (k: i64)
        ensures
            k == self.total_rank(),
    {
        if self.bits >= 0x8000_0000_0000_0000 {
            let m: u64 = self.bits - 0x8000_0000_0000_0000;
            -(m as i64) - 1
        } else {
            self.bits as i64
        }
    }
}

impl F32Bits {
    /// Not a number: the exponent is all ones and the fraction is not zero.
    pub open spec fn is_nan(self) -> bool {
        self.magnitude() > 0x7f80_0000
    }

    /// The number without its sign; numbers that are farther from zero have larger magnitudes.
    pub open spec fn magnitude(self) -> int {
        if self.bits >= 0x8000_0000 {
            self.bits - 0x8000_0000
        } else {
            self.bits as int
        }
    }

    /// Where the number stands among all numbers: both zeros stand at zero.
    pub open spec fn rank(self) -> int {
        if self.bits >= 0x8000_0000 {
            -self.magnitude()
        } else {
            self.magnitude()
        }
    }

    /// `self < other`; false where one of them is not a number.
    pub open spec fn spec_lt(self, other: F32Bits) -> bool {
        !self.is_nan() && !other.is_nan() && self.rank() < other.rank()
    }

    /// `self <= other`; false where one of them is not a number.
    pub open spec fn spec_le(self, other: F32Bits) -> bool {
        !self.is_nan() && !other.is_nan() && self.rank() <= other.rank()
    }

    /// `self == other`; false where one of them is not a number, and true of both zeros.
    pub open spec fn spec_equals(self, other: F32Bits) -> bool {
        !self.is_nan() && !other.is_nan() && self.rank() == other.rank()
    }

    /// The larger of the two, or the other one where one of them is not a number.
    pub open spec fn spec_max(self, other: F32Bits) -> F32Bits {
        if self.is_nan() || self.spec_lt(other) {
            other
        } else {
            self
        }
    }

    /// The smaller of the two, or the other one where one of them is not a number.
    pub open spec fn spec_min(self, other: F32Bits) -> F32Bits {
        if self.is_nan() || other.spec_lt(self) {
            other
        } else {
            self
        }
    }

    fn signed(self) -> (r: (i64, bool))
        ensures
            r.0 == self.rank(),
            r.1 == self.is_nan(),
    {
        if self.bits >= 0x8000_0000 {
            let m: u32 = self.bits - 0x8000_0000;
            (-(m as i64), m > 0x7f80_0000)
        } else {
            (self.bits as i64, self.bits > 0x7f80_0000)
        }
    }

    /// `self < other`; false where one of them is not a number.
    pub fn lt(self, other: F32Bits) -> (r: bool)
        ensures
            r == self.spec_lt(other),
    {
        let (a, a_nan) = self.signed();
        let (b, b_nan) = other.signed();
        !a_nan && !b_nan && a < b
    }

    /// `self <= other`; false where one of them is not a number.
    pub fn le(self, other: F32Bits) -> (r: bool)
        ensures
            r == self.spec_le(other),
    {
        let (a, a_nan) = self.signed();
        let (b, b_nan) = other.signed();
        !a_nan && !b_nan && a <= b
    }

    /// The larger of the two, or the other one where one of them is not a number.
    pub fn max(self, other: F32Bits) -> (r: F32Bits)
        ensures
            r == self.spec_max(other),
    {
        let (_, nan) = self.signed();
        if nan || self.lt(other) {
            other
        } else {
            self
        }
    }

    /// The smaller of the two, or the other one where one of them is not a number.
    pub fn min(self, other: F32Bits) -> (r: F32Bits)
        ensures
            r == self.spec_min(other),
    {
        let (_, nan) = self.signed();
        if nan || other.lt(self) {
            other
        } else {
            self
        }
    }

    /// `self == other`; false where one of them is not a number, and true of both zeros.
    pub fn equals(self, other: F32Bits) -> (r: bool)
        ensures
            r == self.spec_equals(other),
    {
        let (a, a_nan) = self.signed();
        let (b, b_nan) = other.signed();
        !a_nan && !b_nan && a == b
    }
}

/// Of two numbers exactly one comparison holds, and of anything else none does.
pub proof fn comparisons_exclude_each_other(a: F64Bits, b: F64Bits)
    ensures
        !a.is_nan() && !b.is_nan() ==> a.spec_lt(b) != a.spec_ge(b),
        a.is_nan() || b.is_nan() ==> !a.spec_lt(b) && !a.spec_ge(b),
{
}

/// The total order tells all numbers apart, and agrees with the comparison of numbers.
pub proof fn total_order_refines_comparison(a: F64Bits, b: F64Bits)
    ensures
        a.total_rank() == b.total_rank() ==> a == b,
        a.spec_lt(b) ==> a.total_rank() < b.total_rank(),
{
}

} // verus!
