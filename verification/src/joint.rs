//! Joints: how bodies may move relative to their parents.

use vstd::prelude::*;
use crate::number::{Real, Vector3, ONE};
use crate::spatial::{Motion, Placement, SpatialMath};

verus! {

/// Kinds of joints.
#[derive(Clone, Copy, PartialEq, Eq, Structural, Debug)]
pub enum JointType {
    /// Rotation about a fixed axis.
    Revolute { axis: Vector3 },
    /// Translation along a fixed axis.
    Prismatic { axis: Vector3 },
    /// No motion.
    Fixed,
    /// Any motion: translation, then quaternion with its scalar part last.
    FreeFlyer,
}

/// The `i`-th unit vector of the six spatial directions.
pub open spec fn unit_motion(i: int) -> Motion {
    let one = Real { bits: ONE };
    let zero = Real { bits: 0 };
    Motion {
        angular: Vector3 {
            x: if i == 0 { one } else { zero },
            y: if i == 1 { one } else { zero },
            z: if i == 2 { one } else { zero },
        },
        linear: Vector3 {
            x: if i == 3 { one } else { zero },
            y: if i == 4 { one } else { zero },
            z: if i == 5 { one } else { zero },
        },
    }
}

fn make_unit_motion(i: usize) -> (r: Motion)
    ensures
        r == unit_motion(i as int),
{
    let one = Real { bits: ONE };
    let zero = Real { bits: 0 };
    Motion {
        angular: Vector3 {
            x: if i == 0 { one } else { zero },
            y: if i == 1 { one } else { zero },
            z: if i == 2 { one } else { zero },
        },
        linear: Vector3 {
            x: if i == 3 { one } else { zero },
            y: if i == 4 { one } else { zero },
            z: if i == 5 { one } else { zero },
        },
    }
}

impl JointType {
    /// How many numbers give the configuration.
    #[verifier::allow_in_spec]
    pub fn nq(&self) -> usize
        returns
            (match *self {
                JointType::Revolute { .. } => 1usize,
                JointType::Prismatic { .. } => 1usize,
                JointType::Fixed => 0usize,
                JointType::FreeFlyer => 7usize,
            }),
    {
        match self {
            JointType::Revolute { .. } => 1,
            JointType::Prismatic { .. } => 1,
            JointType::Fixed => 0,
            JointType::FreeFlyer => 7,
        }
    }

    /// How many numbers give the velocity.
    #[verifier::allow_in_spec]
    pub fn nv(&self) -> usize
        returns
            (match *self {
                JointType::Revolute { .. } => 1usize,
                JointType::Prismatic { .. } => 1usize,
                JointType::Fixed => 0usize,
                JointType::FreeFlyer => 6usize,
            }),
    {
        match self {
            JointType::Revolute { .. } => 1,
            JointType::Prismatic { .. } => 1,
            JointType::Fixed => 0,
            JointType::FreeFlyer => 6,
        }
    }

    /// Whether `r` is the placement of the joint for the configuration that begins at `at`.
    pub open spec fn placed<K: SpatialMath>(self, k: &K, q: Seq<Real>, at: int, r: Placement) -> bool {
        match self {
            JointType::Revolute { axis } => call_ensures(K::rotation, (k, axis, q[at]), r),
            JointType::Prismatic { axis } => call_ensures(K::translation, (k, axis, q[at]), r),
            JointType::Fixed => r == Placement::identity(),
            JointType::FreeFlyer => call_ensures(
                K::free,
                (
                    k,
                    Vector3 { x: q[at], y: q[at + 1], z: q[at + 2] },
                    q[at + 3],
                    q[at + 4],
                    q[at + 5],
                    q[at + 6],
                ),
                r,
            ),
        }
    }

    /// Placement of the joint for the configuration that begins at `at`.
    pub fn forward<K: SpatialMath>(&self, k: &K, q: &[Real], at: usize) -> (r: Placement)
        requires
            at + self.nq() <= q@.len(),
        ensures
            self.placed(k, q@, at as int, r),
    {
        match self {
            JointType::Revolute { axis } => k.rotation(*axis, q[at]),
            JointType::Prismatic { axis } => k.translation(*axis, q[at]),
            JointType::Fixed => Placement::identity(),
            JointType::FreeFlyer => k.free(
                Vector3 { x: q[at], y: q[at + 1], z: q[at + 2] },
                q[at + 3],
                q[at + 4],
                q[at + 5],
                q[at + 6],
            ),
        }
    }

    /// The motions that the joint allows, one for each number of the velocity.
    pub open spec fn subspace(self) -> Seq<Motion> {
        match self {
            JointType::Revolute { axis } => seq![Motion { angular: axis, linear: Vector3::zero() }],
            JointType::Prismatic { axis } => seq![Motion { angular: Vector3::zero(), linear: axis }],
            JointType::Fixed => Seq::empty(),
            JointType::FreeFlyer => Seq::new(6, |i: int| unit_motion(i)),
        }
    }

    /// The motions that the joint allows, one for each number of the velocity.
    pub fn motion_subspace(&self) -> (r: Vec<Motion>)
        ensures
            r@ == self.subspace(),
            r@.len() == self.nv(),
    {
        let mut r: Vec<Motion> = Vec::new();
        match self {
            JointType::Revolute { axis } => {
                r.push(Motion { angular: *axis, linear: Vector3::zero() });
            },
            JointType::Prismatic { axis } => {
                r.push(Motion { angular: Vector3::zero(), linear: *axis });
            },
            JointType::Fixed => {},
            JointType::FreeFlyer => {
                for i in 0..6usize
                    invariant
                        r@ == Seq::new(i as nat, |j: int| unit_motion(j)),
                {
                    r.push(make_unit_motion(i));
                }
            },
        }
        assert(r@ =~= self.subspace());
        r
    }
}

/// The unit vector along one of the axes x, y and z.
pub open spec fn axis(i: int) -> Vector3 {
    let one = Real { bits: ONE };
    let zero = Real { bits: 0 };
    Vector3 {
        x: if i == 0 { one } else { zero },
        y: if i == 1 { one } else { zero },
        z: if i == 2 { one } else { zero },
    }
}

fn make_axis(i: usize) -> (r: Vector3)
    ensures
        r == axis(i as int),
{
    let one = Real { bits: ONE };
    let zero = Real { bits: 0 };
    Vector3 {
        x: if i == 0 { one } else { zero },
        y: if i == 1 { one } else { zero },
        z: if i == 2 { one } else { zero },
    }
}

/// Rotation about the x axis.
pub fn revolute_x() -> (r: JointType)
    ensures
        r == (JointType::Revolute { axis: axis(0) }),
{
    JointType::Revolute { axis: make_axis(0) }
}

/// Rotation about the y axis.
pub fn revolute_y() -> (r: JointType)
    ensures
        r == (JointType::Revolute { axis: axis(1) }),
{
    JointType::Revolute { axis: make_axis(1) }
}

/// Rotation about the z axis.
pub fn revolute_z() -> (r: JointType)
    ensures
        r == (JointType::Revolute { axis: axis(2) }),
{
    JointType::Revolute { axis: make_axis(2) }
}

/// Translation along the x axis.
pub fn prismatic_x() -> (r: JointType)
    ensures
        r == (JointType::Prismatic { axis: axis(0) }),
{
    JointType::Prismatic { axis: make_axis(0) }
}

/// Translation along the y axis.
pub fn prismatic_y() -> (r: JointType)
    ensures
        r == (JointType::Prismatic { axis: axis(1) }),
{
    JointType::Prismatic { axis: make_axis(1) }
}

/// Translation along the z axis.
pub fn prismatic_z() -> (r: JointType)
    ensures
        r == (JointType::Prismatic { axis: axis(2) }),
{
    JointType::Prismatic { axis: make_axis(2) }
}

/// There are as many allowed motions as numbers in the velocity.
pub proof fn subspace_has_nv_columns(j: JointType)
    ensures
        j.subspace().len() == j.nv(),
        j.nv() <= j.nq(),
{
}

} // verus!
