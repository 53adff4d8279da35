//! Arithmetic on poses that is given from outside.

use vstd::prelude::*;
use crate::centroidal::MassMath;
use crate::manifold::FreeMotion;
use crate::matrix::LinearMath;
use crate::number::Vector3;
use crate::spatial::{Motion, Placement, SpatialMath};

verus! {

/// Floating-point operations on poses.
///
/// Nothing is assumed of the results.
pub trait PoseMath {
    /// The placement that undoes another.
    fn inverse(&self, x: Placement) -> Placement;

    /// The motion that leads to a placement in unit time.
    fn log(&self, x: Placement) -> Motion;

    /// A vector of the frame placed at `x` as seen in the world.
    fn rotate(&self, x: Placement, v: Vector3) -> Vector3;

    /// A vector of the world as seen in the frame placed at `x`.
    fn rotate_back(&self, x: Placement, v: Vector3) -> Vector3;

    /// The rotation from one orientation to another, as an axis times an angle.
    fn orientation_error(&self, current: Placement, target: Placement) -> Vector3;
}

/// All that moving a mechanism towards a goal takes.
pub trait RobotMath: SpatialMath + LinearMath + MassMath + PoseMath + FreeMotion {

}

/// Whether `r` is the motion `m` turned into the frame placed at `x`.
pub open spec fn turned_back<K: PoseMath>(k: &K, x: Placement, m: Motion, r: Motion) -> bool {
    &&& call_ensures(K::rotate_back, (k, x, m.angular), r.angular)
    &&& call_ensures(K::rotate_back, (k, x, m.linear), r.linear)
}

/// Whether `r` is the motion `m` of the frame placed at `x`, turned into the world.
pub open spec fn turned<K: PoseMath>(k: &K, x: Placement, m: Motion, r: Motion) -> bool {
    &&& call_ensures(K::rotate, (k, x, m.angular), r.angular)
    &&& call_ensures(K::rotate, (k, x, m.linear), r.linear)
}

/// Turns a motion of the frame placed at `x` into the world.
pub fn turn<K: PoseMath>(k: &K, x: Placement, m: Motion) -> (r: Motion)
    ensures
        turned(k, x, m, r),
{
    Motion { angular: k.rotate(x, m.angular), linear: k.rotate(x, m.linear) }
}

/// Turns a motion of the world into the frame placed at `x`.
pub fn turn_back<K: PoseMath>(k: &K, x: Placement, m: Motion) -> (r: Motion)
    ensures
        turned_back(k, x, m, r),
{
    Motion { angular: k.rotate_back(x, m.angular), linear: k.rotate_back(x, m.linear) }
}

} // verus!
