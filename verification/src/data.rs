//! Results of kinematic algorithms.

use vstd::prelude::*;
use crate::model::Model;
use crate::spatial::{Motion, Placement};

verus! {

/// What kinematic algorithms compute for each joint.
#[allow(non_snake_case)]
#[derive(Clone, Debug)]
pub struct Data {
    /// Placement of each joint in the frame of its parent.
    pub joint_placements: Vec<Placement>,
    /// Placement of each joint in the world.
    pub oMi: Vec<Placement>,
    /// Velocity of each body in its own frame.
    pub v: Vec<Motion>,
    /// Acceleration of each body in its own frame.
    pub a: Vec<Motion>,
    /// Jacobian, one column for each number of the velocity.
    pub J: Vec<Motion>,
}

impl Data {
    /// Whether there is an entry for each joint of the model.
    pub open spec fn fits(self, m: Model) -> bool {
        &&& self.joint_placements@.len() == m.joints@.len()
        &&& self.oMi@.len() == m.joints@.len()
        &&& self.v@.len() == m.joints@.len()
        &&& self.a@.len() == m.joints@.len()
        &&& self.J@.len() == m.nv
    }

    /// Everything at rest at the origin.
    pub fn new(model: &Model) -> (r: Self)
        ensures
            r.fits(*model),
            r.joint_placements@ == Seq::new(model.joints@.len(), |i: int| Placement::identity()),
            r.oMi@ == Seq::new(model.joints@.len(), |i: int| Placement::identity()),
            r.v@ == Seq::new(model.joints@.len(), |i: int| Motion::zero()),
            r.a@ == Seq::new(model.joints@.len(), |i: int| Motion::zero()),
            r.J@ == Seq::new(model.nv as nat, |i: int| Motion::zero()),
    {
        let n: usize = model.joints.len();
        Data {
            joint_placements: repeat(Placement::identity(), n),
            oMi: repeat(Placement::identity(), n),
            v: repeat(Motion::zero(), n),
            a: repeat(Motion::zero(), n),
            J: repeat(Motion::zero(), model.nv),
        }
    }
}

/// A list with the given values.
pub fn copy_slice<T: Copy>(v: &[T]) -> (r: Vec<T>)
    ensures
        r@ == v@,
{
    let mut r: Vec<T> = Vec::new();
    for i in 0..v.len()
        invariant
            r@ == v@.take(i as int),
    {
        r.push(v[i]);
        assert(v@.take(i as int).push(v@[i as int]) =~= v@.take(i + 1));
    }
    assert(v@.take(v.len() as int) =~= v@);
    r
}

/// A list of `n` times the same value.
pub fn repeat<T: Copy>(x: T, n: usize) -> (r: Vec<T>)
    ensures
        r@ == Seq::new(n as nat, |i: int| x),
{
    let mut r: Vec<T> = Vec::new();
    for i in 0..n
        invariant
            r@ == Seq::new(i as nat, |j: int| x),
    {
        r.push(x);
    }
    r
}

} // verus!
