//! Quantities of rigid-body motion, and the arithmetic that is given from outside.

use vstd::prelude::*;
use crate::number::{Real, Vector3, ONE};

verus! {

/// A rigid placement: rotation by a unit quaternion, then translation.
#[derive(Clone, Copy, PartialEq, Eq, Structural, Debug)]
pub struct Placement {
    /// Vector part of the quaternion.
    pub i: Real,
    pub j: Real,
    pub k: Real,
    /// Scalar part of the quaternion.
    pub w: Real,
    pub translation: Vector3,
}

/// A spatial vector: velocity, acceleration or force, angular part first.
#[derive(Clone, Copy, PartialEq, Eq, Structural, Debug)]
pub struct Motion {
    pub angular: Vector3,
    pub linear: Vector3,
}

/// A six by six spatial inertia, column by column.
#[derive(Clone, Copy, Debug)]
pub struct Inertia {
    pub m: [Real; 36],
}

/// Mass properties of a link.
#[derive(Clone, Copy, Debug)]
pub struct LinkInertia {
    pub mass: Real,
    pub center_of_mass: Vector3,
    /// Three by three, column by column.
    pub rotational_inertia: [Real; 9],
}

impl LinkInertia {
    /// A link without mass.
    #[verifier::allow_in_spec]
    pub fn zero() -> LinkInertia
        returns
            (LinkInertia {
                mass: Real::zero(),
                center_of_mass: Vector3::zero(),
                rotational_inertia: [
                    Real::zero(),
                    Real::zero(),
                    Real::zero(),
                    Real::zero(),
                    Real::zero(),
                    Real::zero(),
                    Real::zero(),
                    Real::zero(),
                    Real::zero(),
                ],
            }),
    {
        let z = Real::zero();
        LinkInertia {
            mass: z,
            center_of_mass: Vector3::zero(),
            rotational_inertia: [z, z, z, z, z, z, z, z, z],
        }
    }
}

impl Placement {
    /// The placement that moves nothing.
    #[verifier::allow_in_spec]
    pub fn identity() -> Placement
        returns
            (Placement {
                i: Real { bits: 0 },
                j: Real { bits: 0 },
                k: Real { bits: 0 },
                w: Real { bits: ONE },
                translation: Vector3::zero(),
            }),
    {
        Placement {
            i: Real { bits: 0 },
            j: Real { bits: 0 },
            k: Real { bits: 0 },
            w: Real { bits: ONE },
            translation: Vector3::zero(),
        }
    }
}

impl Motion {
    /// The zero vector.
    #[verifier::allow_in_spec]
    pub fn zero() -> Motion
        returns
            (Motion { angular: Vector3::zero(), linear: Vector3::zero() }),
    {
        Motion { angular: Vector3::zero(), linear: Vector3::zero() }
    }
}

impl Inertia {
    /// An inertia of zero.
    pub fn zero() -> (r: Inertia)
        ensures
            forall|i: int| 0 <= i < 36 ==> r.m[i] == Real::zero(),
    {
        let z = Real::zero();
        Inertia {
            m: [
                z, z, z, z, z, z, z, z, z, z, z, z, z, z, z, z, z, z, z, z, z, z, z, z, z, z, z, z, z, z,
                z, z, z, z, z, z,
            ],
        }
    }
}

/// The six numbers of a spatial vector.
pub open spec fn six_of(m: Motion) -> Seq<Real> {
    seq![m.angular.x, m.angular.y, m.angular.z, m.linear.x, m.linear.y, m.linear.z]
}

/// The `t`-th number of a spatial vector.
pub fn component(m: Motion, t: usize) -> (r: Real)
    requires
        t < 6,
    ensures
        r == six_of(m)[t as int],
{
    if t == 0 {
        m.angular.x
    } else if t == 1 {
        m.angular.y
    } else if t == 2 {
        m.angular.z
    } else if t == 3 {
        m.linear.x
    } else if t == 4 {
        m.linear.y
    } else {
        m.linear.z
    }
}

/// The acceleration of the world that stands for gravity.
pub open spec fn against(gravity: Vector3) -> Motion {
    Motion {
        angular: Vector3::zero(),
        linear: Vector3 { x: gravity.x.negated(), y: gravity.y.negated(), z: gravity.z.negated() },
    }
}

/// Gives the world the acceleration that stands for gravity.
pub fn world_acceleration(gravity: Vector3) -> (r: Motion)
    ensures
        r == against(gravity),
{
    Motion {
        angular: Vector3::zero(),
        linear: Vector3 { x: gravity.x.neg(), y: gravity.y.neg(), z: gravity.z.neg() },
    }
}

/// Floating-point operations on spatial quantities.
///
/// Nothing is assumed of the results.
pub trait SpatialMath {
    /// The sum of two numbers.
    fn sum(&self, a: Real, b: Real) -> Real;

    /// The difference of two numbers.
    fn difference(&self, a: Real, b: Real) -> Real;

    /// The product of two numbers.
    fn product(&self, a: Real, b: Real) -> Real;

    /// The quotient of two numbers.
    fn quotient(&self, a: Real, b: Real) -> Real;

    /// The placement `b` as seen through `a`.
    fn compose(&self, a: Placement, b: Placement) -> Placement;

    /// The rotation by an angle about an axis.
    fn rotation(&self, axis: Vector3, angle: Real) -> Placement;

    /// The translation by a distance along an axis.
    fn translation(&self, axis: Vector3, distance: Real) -> Placement;

    /// The placement with the given translation and the direction of the given quaternion.
    fn free(&self, translation: Vector3, i: Real, j: Real, k: Real, w: Real) -> Placement;

    /// The sum of two spatial vectors.
    fn motion_sum(&self, a: Motion, b: Motion) -> Motion;

    /// The difference of two spatial vectors.
    fn motion_difference(&self, a: Motion, b: Motion) -> Motion;

    /// The vector `a` plus `x` times the vector `s`.
    fn motion_add_scaled(&self, a: Motion, s: Motion, x: Real) -> Motion;

    /// The vector `a` divided by `x`.
    fn motion_quotient(&self, a: Motion, x: Real) -> Motion;

    /// The scalar product of two vectors of space.
    fn dot3(&self, a: Vector3, b: Vector3) -> Real;

    /// A motion in the frame of the parent as seen in the frame placed at `x`.
    fn motion_to_child(&self, x: Placement, v: Motion) -> Motion;

    /// A force in the frame placed at `x` as seen in the frame of the parent.
    fn force_to_parent(&self, x: Placement, f: Motion) -> Motion;

    /// The motion `m` as it changes by the motion `v`.
    fn motion_cross(&self, v: Motion, m: Motion) -> Motion;

    /// The force `f` as it changes by the motion `v`.
    fn force_cross(&self, v: Motion, f: Motion) -> Motion;

    /// The scalar product of two spatial vectors.
    fn dot(&self, a: Motion, b: Motion) -> Real;

    /// The spatial inertia of a link.
    fn body_inertia(&self, link: LinkInertia) -> Inertia;

    /// The sum of two spatial inertias.
    fn inertia_sum(&self, a: Inertia, b: Inertia) -> Inertia;

    /// An inertia in the frame placed at `x` as seen in the frame of the parent.
    fn inertia_to_parent(&self, x: Placement, i: Inertia) -> Inertia;

    /// The force that a motion takes.
    fn inertia_times(&self, i: Inertia, m: Motion) -> Motion;

    /// The solution `x` of `D x = e`, padded.
    fn solve(&self, d: &Vec<Vec<Real>>, e: &Vec<Real>) -> [Real; 6];

    /// Velocity of the point `target` under the motion `s` of the frame.
    fn jacobian_column(&self, frame: Placement, s: Motion, target: Vector3) -> Motion;
}

/// Whether `r` is the sum of the first `n` vectors, each times its number.
pub open spec fn combination<K: SpatialMath>(
    k: &K,
    s: Seq<Motion>,
    x: Seq<Real>,
    at: int,
    n: int,
    r: Motion,
) -> bool
    decreases n,
{
    if n <= 0 {
        r == Motion::zero()
    } else {
        exists|p: Motion|
            {
                &&& combination(k, s, x, at, n - 1, p)
                &&& #[trigger] call_ensures(K::motion_add_scaled, (k, p, s[n - 1], x[at + n - 1]), r)
            }
    }
}

/// Adds up vectors, each times its number.
pub fn combine<K: SpatialMath>(k: &K, s: &Vec<Motion>, x: &[Real], at: usize) -> (r: Motion)
    requires
        at + s@.len() <= x@.len(),
    ensures
        combination(k, s@, x@, at as int, s@.len() as int, r),
{
    let mut r = Motion::zero();
    for c in 0..s.len()
        invariant
            at + s@.len() <= x@.len(),
            combination(k, s@, x@, at as int, c as int, r),
    {
        assert(x@.len() == x.len());
        let p = r;
        r = k.motion_add_scaled(p, s[c], x[at + c]);
        assert(call_ensures(K::motion_add_scaled, (k, p, s@[c as int], x@[at + c]), r));
    }
    r
}

// ── Arithmetic that repeats itself ──

/// Whether placements are computed alike each time.
pub open spec fn places_alike<K: SpatialMath>(k: &K) -> bool {
    &&& forall|a: Placement, b: Placement, x: Placement, y: Placement| #[trigger]
        call_ensures(K::compose, (k, a, b), x) && #[trigger] call_ensures(K::compose, (k, a, b), y) ==> x == y
    &&& forall|a: Vector3, t: Real, x: Placement, y: Placement| #[trigger]
        call_ensures(K::rotation, (k, a, t), x) && #[trigger] call_ensures(K::rotation, (k, a, t), y) ==> x == y
    &&& forall|a: Vector3, t: Real, x: Placement, y: Placement| #[trigger]
        call_ensures(K::translation, (k, a, t), x) && #[trigger] call_ensures(K::translation, (k, a, t), y) ==> x == y
    &&& forall|t: Vector3, i: Real, j: Real, h: Real, w: Real, x: Placement, y: Placement| #[trigger]
        call_ensures(K::free, (k, t, i, j, h, w), x) && #[trigger] call_ensures(K::free, (k, t, i, j, h, w), y)
            ==> x == y
}

/// Whether columns of Jacobians are computed alike each time.
pub open spec fn columns_alike<K: SpatialMath>(k: &K) -> bool {
    forall|p: Placement, s: Motion, t: Vector3, x: Motion, y: Motion| #[trigger]
        call_ensures(K::jacobian_column, (k, p, s, t), x) && #[trigger] call_ensures(
            K::jacobian_column,
            (k, p, s, t),
            y,
        ) ==> x == y
}

/// Whether the numbers of two spatial vectors differ in sign only.
pub open spec fn opposite_motions(x: Motion, y: Motion) -> bool {
    forall|t: int| 0 <= t < 6 ==> (#[trigger] six_of(x)[t]).opposite(six_of(y)[t])
}

/// Whether the differences of two spatial vectors, taken either way, differ in sign only.
pub open spec fn subtracts_evenly<K: SpatialMath>(k: &K) -> bool {
    forall|a: Motion, b: Motion, x: Motion, y: Motion| #[trigger]
        call_ensures(K::motion_difference, (k, a, b), x) && #[trigger] call_ensures(
            K::motion_difference,
            (k, b, a),
            y,
        ) ==> opposite_motions(x, y)
}

} // verus!
