//! Double-precision numbers by their bit patterns.
//!
//! Ordering, sign manipulation and classification of IEEE-754 binary64 values
//! are operations on their bits: read as sign and magnitude, the bits order
//! exactly as the numbers do.

use vstd::prelude::*;

verus! {

/// Weight of the sign bit.
pub const SIGN: u64 = 0x8000_0000_0000_0000;

/// Magnitude of the infinities; larger magnitudes are NaNs.
pub const INF_MAGNITUDE: u64 = 0x7FF0_0000_0000_0000;

/// Bits of one.
pub const ONE: u64 = 0x3FF0_0000_0000_0000;

/// A binary64 number, given by its bits.
#[derive(Clone, Copy, PartialEq, Eq, Structural, Debug)]
pub struct Real {
    pub bits: u64,
}

impl Real {
    /// Bits without the sign.
    pub open spec fn magnitude_spec(self) -> int {
        if self.bits >= SIGN {
            self.bits - SIGN
        } else {
            self.bits as int
        }
    }

    /// Whether the bits encode no number.
    pub open spec fn nan(self) -> bool {
        self.magnitude_spec() > INF_MAGNITUDE
    }

    /// Whether the bits encode a number other than an infinity.
    pub open spec fn finite(self) -> bool {
        self.magnitude_spec() < INF_MAGNITUDE
    }

    /// Position of a number among all numbers: smaller numbers have smaller
    /// ranks, the two zeros share one.  NaNs rank above every number.
    pub open spec fn rank(self) -> int {
        if self.nan() {
            INF_MAGNITUDE + 1
        } else if self.bits >= SIGN {
            -self.magnitude_spec()
        } else {
            self.magnitude_spec()
        }
    }

    /// `self < other` on numbers; false when either is a NaN.
    pub open spec fn below(self, other: Real) -> bool {
        !self.nan() && !other.nan() && self.rank() < other.rank()
    }

    /// `self <= other` on numbers; false when either is a NaN.
    pub open spec fn at_most(self, other: Real) -> bool {
        !self.nan() && !other.nan() && self.rank() <= other.rank()
    }

    /// `self == other` on numbers; false when either is a NaN.
    pub open spec fn same(self, other: Real) -> bool {
        !self.nan() && !other.nan() && self.rank() == other.rank()
    }

    /// The number with the opposite sign.
    pub open spec fn negated(self) -> Real {
        Real { bits: if self.bits >= SIGN { (self.bits - SIGN) as u64 } else { (self.bits + SIGN) as u64 } }
    }

    /// Whether two numbers differ in sign only, or neither is a number.
    pub open spec fn opposite(self, other: Real) -> bool {
        (self.nan() && other.nan()) || other.same(self.negated())
    }

    /// The number without its sign.
    pub open spec fn unsigned(self) -> Real {
        Real { bits: self.magnitude_spec() as u64 }
    }

    /// The larger of two numbers; a NaN gives way to the other operand.
    pub open spec fn larger(self, other: Real) -> Real {
        if self.nan() || self.below(other) {
            other
        } else {
            self
        }
    }

    /// The smaller of two numbers; a NaN gives way to the other operand.
    pub open spec fn smaller(self, other: Real) -> Real {
        if self.nan() || other.below(self) {
            other
        } else {
            self
        }
    }

    /// The number moved into `[lo, hi]`; a NaN stays as it is.
    pub open spec fn clamped(self, lo: Real, hi: Real) -> Real {
        if self.below(lo) {
            lo
        } else if hi.below(self) {
            hi
        } else {
            self
        }
    }

    /// Positive zero.
    #[verifier::allow_in_spec]
    pub fn zero() -> Real
        returns
            (Real { bits: 0 }),
    {
        Real { bits: 0 }
    }

    /// One.
    #[verifier::allow_in_spec]
    pub fn one() -> Real
        returns
            (Real { bits: ONE }),
    {
        Real { bits: ONE }
    }

    /// Positive infinity.
    #[verifier::allow_in_spec]
    pub fn infinity() -> Real
        returns
            (Real { bits: INF_MAGNITUDE }),
    {
        Real { bits: INF_MAGNITUDE }
    }

    /// Bits without the sign.
    fn magnitude(self) -> (m: u64)
        ensures
            m == self.magnitude_spec(),
    {
        if self.bits >= SIGN {
            self.bits - SIGN
        } else {
            self.bits
        }
    }

    pub fn is_nan(self) -> (r: bool)
        ensures
            r == self.nan(),
    {
        self.magnitude() > INF_MAGNITUDE
    }

    pub fn is_finite(self) -> (r: bool)
        ensures
            r == self.finite(),
    {
        self.magnitude() < INF_MAGNITUDE
    }

    pub fn is_infinite(self) -> (r: bool)
        ensures
            r == (!self.nan() && !self.finite()),
    {
        self.magnitude() == INF_MAGNITUDE
    }

    /// The rank as a machine integer.
    fn rank_i64(self) -> (r: i64)
        ensures
            r == self.rank(),
    {
        let m: u64 = self.magnitude();
        if m > INF_MAGNITUDE {
            0x7FF0_0000_0000_0001
        } else if self.bits >= SIGN {
            -(m as i64)
        } else {
            m as i64
        }
    }

    /// Whether `self` ranks strictly before `other`, NaNs last.
    pub fn ranks_before(self, other: Real) -> (r: bool)
        ensures
            r == (self.rank() < other.rank()),
    {
        self.rank_i64() < other.rank_i64()
    }

    pub fn lt(self, other: Real) -> (r: bool)
        ensures
            r == self.below(other),
    {
        !self.is_nan() && !other.is_nan() && self.rank_i64() < other.rank_i64()
    }

    pub fn le(self, other: Real) -> (r: bool)
        ensures
            r == self.at_most(other),
    {
        !self.is_nan() && !other.is_nan() && self.rank_i64() <= other.rank_i64()
    }

    pub fn equals(self, other: Real) -> (r: bool)
        ensures
            r == self.same(other),
    {
        !self.is_nan() && !other.is_nan() && self.rank_i64() == other.rank_i64()
    }

    pub fn neg(self) -> (r: Real)
        ensures
            r == self.negated(),
    {
        if self.bits >= SIGN {
            Real { bits: self.bits - SIGN }
        } else {
            Real { bits: self.bits + SIGN }
        }
    }

    pub fn abs(self) -> (r: Real)
        ensures
            r == self.unsigned(),
    {
        Real { bits: self.magnitude() }
    }

    pub fn max(self, other: Real) -> (r: Real)
        ensures
            r == self.larger(other),
    {
        if self.is_nan() || self.lt(other) {
            other
        } else {
            self
        }
    }

    pub fn min(self, other: Real) -> (r: Real)
        ensures
            r == self.smaller(other),
    {
        if self.is_nan() || other.lt(self) {
            other
        } else {
            self
        }
    }

    /// Moves the number below `hi` and above `lo`, the lower bound first.
    pub fn restrict(self, lo: Real, hi: Real) -> (r: Real)
        ensures
            r == self.clamped(lo, hi),
    {
        if self.lt(lo) {
            lo
        } else if hi.lt(self) {
            hi
        } else {
            self
        }
    }

    /// Moves the number into `[lo, hi]`.
    pub fn clamp(self, lo: Real, hi: Real) -> (r: Real)
        requires
            lo.at_most(hi),
        ensures
            r == self.clamped(lo, hi),
    {
        self.restrict(lo, hi)
    }
}

/// A point of space.
#[derive(Clone, Copy, PartialEq, Eq, Structural, Debug)]
pub struct Point3 {
    pub x: Real,
    pub y: Real,
    pub z: Real,
}

/// A direction or displacement of space.
#[derive(Clone, Copy, PartialEq, Eq, Structural, Debug)]
pub struct Vector3 {
    pub x: Real,
    pub y: Real,
    pub z: Real,
}

/// A point of a texture.
#[derive(Clone, Copy, PartialEq, Eq, Structural, Debug)]
pub struct Point2 {
    pub x: Real,
    pub y: Real,
}

impl Point3 {
    /// The origin of space.
    #[verifier::allow_in_spec]
    pub fn origin() -> Point3
        returns
            (Point3 { x: Real { bits: 0 }, y: Real { bits: 0 }, z: Real { bits: 0 } }),
    {
        Point3 { x: Real { bits: 0 }, y: Real { bits: 0 }, z: Real { bits: 0 } }
    }
}

impl Vector3 {
    /// The zero vector.
    #[verifier::allow_in_spec]
    pub fn zero() -> Vector3
        returns
            (Vector3 { x: Real { bits: 0 }, y: Real { bits: 0 }, z: Real { bits: 0 } }),
    {
        Vector3 { x: Real { bits: 0 }, y: Real { bits: 0 }, z: Real { bits: 0 } }
    }

    /// The unit vector along z.
    #[verifier::allow_in_spec]
    pub fn unit_z() -> Vector3
        returns
            (Vector3 { x: Real { bits: 0 }, y: Real { bits: 0 }, z: Real { bits: ONE } }),
    {
        Vector3 { x: Real { bits: 0 }, y: Real { bits: 0 }, z: Real { bits: ONE } }
    }
}

impl Point2 {
    /// The origin of a texture.
    #[verifier::allow_in_spec]
    pub fn origin() -> Point2
        returns
            (Point2 { x: Real { bits: 0 }, y: Real { bits: 0 } }),
    {
        Point2 { x: Real { bits: 0 }, y: Real { bits: 0 } }
    }
}

/// Negation is undone by negating again, and keeps a NaN a NaN.
pub proof fn negation_is_an_involution(a: Real)
    ensures
        a.negated().negated() == a,
        a.negated().nan() == a.nan(),
        !a.nan() ==> a.negated().rank() == -a.rank(),
{
}

/// Of any two numbers exactly one is below the other, or they are the same.
pub proof fn numbers_are_totally_ordered(a: Real, b: Real)
    requires
        !a.nan(),
        !b.nan(),
    ensures
        a.below(b) || b.below(a) || a.same(b),
        !(a.below(b) && b.below(a)),
        a.at_most(b) == !b.below(a),
{
}

/// A number that was clamped lies between the bounds.
pub proof fn clamped_is_within(a: Real, lo: Real, hi: Real)
    requires
        !a.nan(),
        lo.at_most(hi),
    ensures
        lo.at_most(a.clamped(lo, hi)),
        a.clamped(lo, hi).at_most(hi),
{
}

} // verus!
