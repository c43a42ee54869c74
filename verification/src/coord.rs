//! Coordinates held by their bit patterns, with the comparisons of IEEE 754.

use vstd::prelude::*;

verus! {

/// The lowest bit pattern with the sign bit set.
pub const SIGN_BIT: u64 = 0x8000_0000_0000_0000;

/// The bit pattern of positive infinity. A pattern whose low 63 bits exceed it is a NaN.
pub const INFINITY_BITS: u64 = 0x7ff0_0000_0000_0000;

/// The bit pattern of negative infinity.
pub const NEG_INFINITY_BITS: u64 = 0xfff0_0000_0000_0000;

/// A double-precision number, held by the bit pattern of its IEEE 754 encoding.
#[derive(Clone, Copy, Debug, PartialEq, Eq, Structural)]
pub struct Coord {
    pub bits: u64,
}

impl Coord {
    /// The low 63 bits: exponent and fraction, without the sign.
    pub open spec fn magnitude(self) -> int {
        if self.bits >= SIGN_BIT {
            self.bits - SIGN_BIT
        } else {
            self.bits as int
        }
    }

    pub open spec fn is_nan(self) -> bool {
        self.magnitude() > INFINITY_BITS
    }

    /// An integer that orders the numbers as IEEE 754 does. The two zeros share a rank.
    pub open spec fn rank(self) -> int {
        if self.bits >= SIGN_BIT {
            -self.magnitude()
        } else {
            self.magnitude()
        }
    }

    /// The comparison `<=` of IEEE 754: false as soon as one side is a NaN.
    pub open spec fn le(self, other: Coord) -> bool {
        !self.is_nan() && !other.is_nan() && self.rank() <= other.rank()
    }

    /// Positive infinity.
    pub open spec fn pos_inf() -> Coord {
        Coord { bits: INFINITY_BITS }
    }

    /// Negative infinity.
    pub open spec fn neg_inf() -> Coord {
        Coord { bits: NEG_INFINITY_BITS }
    }

    /// The number `m` is the lesser of `a` and `b`, where a NaN never wins against a number.
    pub open spec fn is_lesser(m: Coord, a: Coord, b: Coord) -> bool {
        if a.is_nan() {
            m == b
        } else if b.is_nan() {
            m == a
        } else {
            (m == a || m == b) && m.rank() <= a.rank() && m.rank() <= b.rank()
        }
    }

    /// The number `m` is the greater of `a` and `b`, where a NaN never wins against a number.
    pub open spec fn is_greater(m: Coord, a: Coord, b: Coord) -> bool {
        if a.is_nan() {
            m == b
        } else if b.is_nan() {
            m == a
        } else {
            (m == a || m == b) && m.rank() >= a.rank() && m.rank() >= b.rank()
        }
    }

    fn nan(self) -> (r: bool)
        ensures
            r == self.is_nan(),
    {
        if self.bits >= SIGN_BIT {
            self.bits - SIGN_BIT > INFINITY_BITS
        } else {
            self.bits > INFINITY_BITS
        }
    }

    /// Whether `self <= other` as floating-point numbers.
    pub fn at_most(self, other: Coord) -> (r: bool)
        ensures
            r == self.le(other),
    {
        if self.nan() || other.nan() {
            return false;
        }
        if self.bits >= SIGN_BIT {
            if other.bits >= SIGN_BIT {
                other.bits <= self.bits
            } else {
                true
            }
        } else if other.bits >= SIGN_BIT {
            self.bits == 0 && other.bits == SIGN_BIT
        } else {
            self.bits <= other.bits
        }
    }

    /// The lesser of two numbers. A NaN yields to the other side; of two equal numbers the first
    /// comes back.
    pub fn lesser(self, other: Coord) -> (r: Coord)
        ensures
            Coord::is_lesser(r, self, other),
            self.rank() == other.rank() && !self.is_nan() ==> r == self,
    {
        if self.nan() {
            other
        } else if other.nan() || self.at_most(other) {
            self
        } else {
            other
        }
    }

    /// The greater of two numbers. A NaN yields to the other side; of two equal numbers the first
    /// comes back.
    pub fn greater(self, other: Coord) -> (r: Coord)
        ensures
            Coord::is_greater(r, self, other),
            self.rank() == other.rank() && !self.is_nan() ==> r == self,
    {
        if self.nan() {
            other
        } else if other.nan() || other.at_most(self) {
            self
        } else {
            other
        }
    }
}

/// A vertex of a geometry.
#[derive(Clone, Copy, Debug, PartialEq, Eq, Structural)]
pub struct Point {
    pub lat: Coord,
    pub lon: Coord,
}

/// A corner of a bounding box.
#[derive(Clone, Copy, Debug, PartialEq, Eq, Structural)]
pub struct LLPoint {
    pub lat: Coord,
    pub lng: Coord,
}

/// A bounding box, given by its south-west and north-east corners.
#[derive(Clone, Copy, Debug, PartialEq, Eq, Structural)]
pub struct LLBBox {
    pub min: LLPoint,
    pub max: LLPoint,
}

/// The numbers that are NaN: those whose exponent is all ones and whose fraction is not zero.
pub proof fn law_nan_patterns(c: Coord)
    ensures
        c.is_nan() <==> 0x7ff0_0000_0000_0000 < c.bits < 0x8000_0000_0000_0000
            || 0xfff0_0000_0000_0000 < c.bits,
{
}

/// Positive numbers grow with their bit patterns, negative ones fall, every negative number lies
/// below every positive one, the two zeros are equal, and a NaN is comparable to nothing.
pub proof fn law_order_of_numbers(a: Coord, b: Coord)
    ensures
        a.is_nan() || b.is_nan() ==> !a.le(b),
        !a.is_nan() && !b.is_nan() ==> {
            &&& a.bits < 0x8000_0000_0000_0000 && b.bits < 0x8000_0000_0000_0000 ==> (a.le(b)
                <==> a.bits <= b.bits)
            &&& a.bits >= 0x8000_0000_0000_0000 && b.bits >= 0x8000_0000_0000_0000 ==> (a.le(b)
                <==> b.bits <= a.bits)
            &&& a.bits >= 0x8000_0000_0000_0000 && b.bits < 0x8000_0000_0000_0000 ==> a.le(b)
            &&& a.bits < 0x8000_0000_0000_0000 && b.bits >= 0x8000_0000_0000_0000 ==> (a.le(b)
                <==> a.bits == 0 && b.bits == 0x8000_0000_0000_0000)
        },
{
}

/// The order of numbers is total and transitive.
pub proof fn law_order_is_total(a: Coord, b: Coord, c: Coord)
    requires
        !a.is_nan(),
        !b.is_nan(),
        !c.is_nan(),
    ensures
        a.le(b) || b.le(a),
        a.le(b) && b.le(c) ==> a.le(c),
        a.le(b) && b.le(a) ==> a == b || a.bits == 0 || b.bits == 0,
{
}

/// The lesser of two numbers is one of them and at most either; a NaN gives way to the other side.
pub proof fn law_lesser_is_a_lower_bound(m: Coord, a: Coord, b: Coord)
    requires
        Coord::is_lesser(m, a, b),
    ensures
        m == a || m == b,
        !a.is_nan() ==> m.le(a),
        !b.is_nan() ==> m.le(b),
{
}

/// The greater of two numbers is one of them and at least either; a NaN gives way to the other
/// side.
pub proof fn law_greater_is_an_upper_bound(m: Coord, a: Coord, b: Coord)
    requires
        Coord::is_greater(m, a, b),
    ensures
        m == a || m == b,
        !a.is_nan() ==> a.le(m),
        !b.is_nan() ==> b.le(m),
{
}

} // verus!
