//! Bit patterns of IEEE-754 numbers and the order they stand in.
//!
//! Distances, screen offsets and timestamps are measured in floating point.
//! The decisions taken on them need only their order, and a binary32 or
//! binary64 number is a sign and a magnitude: comparing the signed magnitudes
//! of two bit patterns compares the numbers.

use vstd::prelude::*;

verus! {

/// The bit pattern of a binary32 number.
#[derive(Clone, Copy, Debug, PartialEq, Eq, Structural)]
pub struct F32 {
    pub bits: u32,
}

/// The bit pattern of a binary64 number.
#[derive(Clone, Copy, Debug, PartialEq, Eq, Structural)]
pub struct F64 {
    pub bits: u64,
}

impl F32 {
    /// Distance from zero, counted in representable steps.
    pub open spec fn magnitude(self) -> int {
        if self.bits < 0x8000_0000 {
            self.bits as int
        } else {
            self.bits - 0x8000_0000
        }
    }

    /// Signed magnitude: both zeros rank 0, negative numbers rank below.
    pub open spec fn rank(self) -> int {
        if self.bits < 0x8000_0000 {
            self.magnitude()
        } else {
            -self.magnitude()
        }
    }

    /// Magnitudes past infinity are not numbers.
    pub open spec fn nan(self) -> bool {
        self.magnitude() > 0x7f80_0000
    }

    /// `self < other`; never true of a pattern that is not a number.
    pub open spec fn below(self, other: F32) -> bool {
        !self.nan() && !other.nan() && self.rank() < other.rank()
    }

    /// `self <= other`; never true of a pattern that is not a number.
    pub open spec fn at_most(self, other: F32) -> bool {
        !self.nan() && !other.nan() && self.rank() <= other.rank()
    }

    /// The same magnitude with the other sign.
    pub open spec fn negated(self) -> F32 {
        if self.bits < 0x8000_0000 {
            F32 { bits: (self.bits + 0x8000_0000) as u32 }
        } else {
            F32 { bits: (self.bits - 0x8000_0000) as u32 }
        }
    }

    /// The same magnitude without a sign.
    pub open spec fn absolute(self) -> F32 {
        F32 { bits: self.magnitude() as u32 }
    }

    pub fn from_bits(bits: u32) -> (r: F32)
        ensures
            r.bits == bits,
    {
        F32 { bits }
    }

    pub fn abs(self) -> (r: F32)
        ensures
            r == self.absolute(),
    {
        if self.bits < 0x8000_0000 {
            self
        } else {
            F32 { bits: self.bits - 0x8000_0000 }
        }
    }

    pub fn is_nan(self) -> (r: bool)
        ensures
            r == self.nan(),
    {
        let m: u32 = if self.bits < 0x8000_0000 { self.bits } else { self.bits - 0x8000_0000 };
        m > 0x7f80_0000
    }

    /// The rank as a machine integer, for sorting.
    pub fn order_rank(self) -> (r: i64)
        ensures
            r == self.rank(),
    {
        if self.bits < 0x8000_0000 {
            self.bits as i64
        } else {
            0x8000_0000i64 - self.bits as i64
        }
    }

    pub fn lt(self, other: F32) -> (r: bool)
        ensures
            r == self.below(other),
    {
        !self.is_nan() && !other.is_nan() && self.order_rank() < other.order_rank()
    }

    pub fn le(self, other: F32) -> (r: bool)
        ensures
            r == self.at_most(other),
    {
        !self.is_nan() && !other.is_nan() && self.order_rank() <= other.order_rank()
    }

    pub fn neg(self) -> (r: F32)
        ensures
            r == self.negated(),
    {
        if self.bits < 0x8000_0000 {
            F32 { bits: self.bits + 0x8000_0000 }
        } else {
            F32 { bits: self.bits - 0x8000_0000 }
        }
    }
}

impl F64 {
    /// Distance from zero, counted in representable steps.
    pub open spec fn magnitude(self) -> int {
        if self.bits < 0x8000_0000_0000_0000 {
            self.bits as int
        } else {
            self.bits - 0x8000_0000_0000_0000
        }
    }

    /// Signed magnitude: both zeros rank 0, negative numbers rank below.
    pub open spec fn rank(self) -> int {
        if self.bits < 0x8000_0000_0000_0000 {
            self.magnitude()
        } else {
            -self.magnitude()
        }
    }

    /// Magnitudes past infinity are not numbers.
    pub open spec fn nan(self) -> bool {
        self.magnitude() > 0x7ff0_0000_0000_0000
    }

    /// `self < other`; never true of a pattern that is not a number.
    pub open spec fn below(self, other: F64) -> bool {
        !self.nan() && !other.nan() && self.rank() < other.rank()
    }

    /// `self <= other`; never true of a pattern that is not a number.
    pub open spec fn at_most(self, other: F64) -> bool {
        !self.nan() && !other.nan() && self.rank() <= other.rank()
    }

    pub fn from_bits(bits: u64) -> (r: F64)
        ensures
            r.bits == bits,
    {
        F64 { bits }
    }

    pub fn is_nan(self) -> (r: bool)
        ensures
            r == self.nan(),
    {
        let m: u64 = if self.bits < 0x8000_0000_0000_0000 {
            self.bits
        } else {
            self.bits - 0x8000_0000_0000_0000
        };
        m > 0x7ff0_0000_0000_0000
    }

    /// The rank as a machine integer.
    pub fn order_rank(self) -> (r: i128)
        ensures
            r == self.rank(),
    {
        if self.bits < 0x8000_0000_0000_0000 {
            self.bits as i128
        } else {
            0x8000_0000_0000_0000i128 - self.bits as i128
        }
    }

    pub fn lt(self, other: F64) -> (r: bool)
        ensures
            r == self.below(other),
    {
        !self.is_nan() && !other.is_nan() && self.order_rank() < other.order_rank()
    }

    pub fn le(self, other: F64) -> (r: bool)
        ensures
            r == self.at_most(other),
    {
        !self.is_nan() && !other.is_nan() && self.order_rank() <= other.order_rank()
    }
}

/// Among numbers `<` is a strict total order up to the two zeros, and `<=` is
/// its complement turned round.
pub proof fn law_order_is_total(a: F32, b: F32, c: F32)
    requires
        !a.nan(),
        !b.nan(),
        !c.nan(),
    ensures
        a.below(b) <==> !b.at_most(a),
        a.at_most(b) && b.at_most(a) <==> a.rank() == b.rank(),
        a.below(b) && b.below(c) ==> a.below(c),
{
}

/// Negation is its own inverse and turns the order round.
pub proof fn law_negation_reverses(a: F32, b: F32)
    ensures
        a.negated().negated() == a,
        a.negated().rank() == -a.rank(),
        a.below(b) <==> b.negated().below(a.negated()),
{
}

/// The order of binary32 numbers, read off their bits: among those without a sign the
/// larger pattern is the larger number, among those with one it is the smaller,
/// every negative number is below every positive one, and the two zeros are equal.
pub proof fn law_f32_order_follows_the_bits(a: u32, b: u32)
    requires
        a <= 0x7f80_0000,
        b <= 0x7f80_0000,
    ensures
        ({
            let pa = F32 { bits: a };
            let pb = F32 { bits: b };
            let na = F32 { bits: (a + 0x8000_0000) as u32 };
            let nb = F32 { bits: (b + 0x8000_0000) as u32 };
            &&& pa.below(pb) <==> a < b
            &&& pa.at_most(pb) <==> a <= b
            &&& na.below(nb) <==> b < a
            &&& na.at_most(nb) <==> b <= a
            &&& na.at_most(pb)
            &&& na.below(pb) <==> a > 0 || b > 0
            &&& !pa.below(nb)
            &&& pa.at_most(nb) <==> a == 0 && b == 0
        }),
{
}

/// A pattern past infinity, with or without a sign, is not a number and compares
/// with nothing, itself among it; all others are numbers.
pub proof fn law_f32_not_a_number_compares_with_nothing(a: F32, b: F32)
    ensures
        a.nan() <==> 0x7f80_0000 < a.bits < 0x8000_0000 || 0x8000_0000 + 0x7f80_0000 < a.bits,
        a.nan() ==> !a.below(b) && !b.below(a) && !a.at_most(b) && !b.at_most(a),
        !a.nan() ==> a.at_most(a) && !a.below(a),
{
}

/// The order of binary64 numbers, read off their bits: among those without a sign the
/// larger pattern is the larger number, among those with one it is the smaller,
/// every negative number is below every positive one, and the two zeros are equal.
pub proof fn law_f64_order_follows_the_bits(a: u64, b: u64)
    requires
        a <= 0x7ff0_0000_0000_0000,
        b <= 0x7ff0_0000_0000_0000,
    ensures
        ({
            let pa = F64 { bits: a };
            let pb = F64 { bits: b };
            let na = F64 { bits: (a + 0x8000_0000_0000_0000) as u64 };
            let nb = F64 { bits: (b + 0x8000_0000_0000_0000) as u64 };
            &&& pa.below(pb) <==> a < b
            &&& pa.at_most(pb) <==> a <= b
            &&& na.below(nb) <==> b < a
            &&& na.at_most(nb) <==> b <= a
            &&& na.at_most(pb)
            &&& na.below(pb) <==> a > 0 || b > 0
            &&& !pa.below(nb)
            &&& pa.at_most(nb) <==> a == 0 && b == 0
        }),
{
}

/// A pattern past infinity, with or without a sign, is not a number and compares
/// with nothing, itself among it; all others are numbers.
pub proof fn law_f64_not_a_number_compares_with_nothing(a: F64, b: F64)
    ensures
        a.nan() <==> 0x7ff0_0000_0000_0000 < a.bits < 0x8000_0000_0000_0000 || 0x8000_0000_0000_0000 + 0x7ff0_0000_0000_0000 < a.bits,
        a.nan() ==> !a.below(b) && !b.below(a) && !a.at_most(b) && !b.at_most(a),
        !a.nan() ==> a.at_most(a) && !a.below(a),
{
}

/// The absolute value has no sign, and is the number itself or its negation.
pub proof fn law_absolute_values_have_no_sign(a: F32)
    ensures
        a.absolute().bits < 0x8000_0000,
        a.absolute() == a || a.absolute() == a.negated(),
        a.bits < 0x8000_0000 ==> a.absolute() == a,
        a.absolute() == a.negated().absolute(),
        a.absolute().nan() <==> a.nan(),
        a.negated() != a,
{
}

} // verus!
