//! Limits of joints.

use vstd::prelude::*;
use crate::data::{copy_slice, repeat};
use crate::joint::JointType;
use crate::model::Model;
use crate::number::Real;

verus! {

/// Limits of the numbers of configuration, velocity and torque.
#[derive(Clone, Debug)]
pub struct JointLimits {
    pub q_min: Vec<Real>,
    pub q_max: Vec<Real>,
    pub v_max: Vec<Real>,
    pub tau_max: Vec<Real>,
}

impl JointLimits {
    /// Whether there is a limit for each number.
    pub open spec fn fits(self, m: Model) -> bool {
        &&& self.q_min@.len() == m.nq
        &&& self.q_max@.len() == m.nq
        &&& self.v_max@.len() == m.nv
        &&& self.tau_max@.len() == m.nv
    }

    /// Limits that allow everything.
    pub fn unbounded(model: &Model) -> (r: Self)
        ensures
            r.fits(*model),
            r.q_min@ == Seq::new(model.nq as nat, |i: int| Real::infinity().negated()),
            r.q_max@ == Seq::new(model.nq as nat, |i: int| Real::infinity()),
            r.v_max@ == Seq::new(model.nv as nat, |i: int| Real::infinity()),
            r.tau_max@ == Seq::new(model.nv as nat, |i: int| Real::infinity()),
    {
        JointLimits {
            q_min: repeat(Real::infinity().neg(), model.nq),
            q_max: repeat(Real::infinity(), model.nq),
            v_max: repeat(Real::infinity(), model.nv),
            tau_max: repeat(Real::infinity(), model.nv),
        }
    }
}

/// How many numbers of the configuration of a joint have limits: all that are no part of a
/// quaternion.
pub open spec fn limited(t: JointType) -> int {
    match t {
        JointType::Revolute { .. } => 1,
        JointType::Prismatic { .. } => 1,
        JointType::Fixed => 0,
        JointType::FreeFlyer => 3,
    }
}

/// Number of numbers of the configuration of a joint that have limits.
pub fn limited_numbers(t: &JointType) -> (r: usize)
    ensures
        r == limited(*t),
        r <= t.nq(),
        r <= t.nv(),
{
    match t {
        JointType::Revolute { .. } => 1,
        JointType::Prismatic { .. } => 1,
        JointType::Fixed => 0,
        JointType::FreeFlyer => 3,
    }
}

/// Whether the `x`-th number of the configuration belongs to joint `i` and has limits.
pub open spec fn has_limits(m: Model, i: int, x: int) -> bool {
    m.q_idx@[i] <= x < m.q_idx@[i] + limited(m.kind(i))
}

/// Whether the `x`-th number of the configuration belongs to one of the first `n` joints
/// and has limits.
pub open spec fn has_limits_below(m: Model, n: int, x: int) -> bool {
    exists|i: int| 0 <= i < n && #[trigger] has_limits(m, i, x)
}

/// Whether `r` is the configuration `q` moved into the limits.
pub open spec fn clamps(m: Model, lim: JointLimits, q: Seq<Real>, r: Seq<Real>) -> bool {
    clamps_below(m, lim, q, r, m.joints@.len() as int)
}

/// Whether `r` is the configuration `q` with the first `n` joints moved into the limits.
pub open spec fn clamps_below(m: Model, lim: JointLimits, q: Seq<Real>, r: Seq<Real>, n: int) -> bool {
    &&& r.len() == q.len()
    &&& forall|x: int|
        0 <= x < q.len() ==> #[trigger] r[x] == if has_limits_below(m, n, x) {
            q[x].clamped(lim.q_min@[x], lim.q_max@[x])
        } else {
            q[x]
        }
}

/// Moves a configuration into the limits.
pub fn clamp_configuration(model: &Model, q: &[Real], lim: &JointLimits) -> (r: Vec<Real>)
    requires
        model.wf(),
        q@.len() == model.nq,
        lim.fits(*model),
    ensures
        clamps(*model, *lim, q@, r@),
{
    let mut r: Vec<Real> = copy_slice(q);
    let n: usize = model.joints.len();
    for i in 0..n
        invariant
            n == model.joints@.len(),
            model.wf(),
            q@.len() == model.nq,
            lim.fits(*model),
            clamps_below(*model, *lim, q@, r@, i as int),
    {
        proof {
            model.ranges(i as int);
        }
        let qi: usize = model.q_idx[i];
        let m: usize = limited_numbers(&model.joints[i].joint_type);
        for x in 0..m
            invariant
                n == model.joints@.len(),
                i < n,
                model.wf(),
                q@.len() == model.nq,
                lim.fits(*model),
                qi == model.q_idx@[i as int],
                m == limited(model.kind(i as int)),
                qi + m <= model.nq,
                r@.len() == q@.len(),
                forall|y: int|
                    0 <= y < q@.len() ==> #[trigger] r@[y] == if has_limits_below(*model, i as int, y) || qi
                        <= y < qi + x {
                        q@[y].clamped(lim.q_min@[y], lim.q_max@[y])
                    } else {
                        q@[y]
                    },
        {
            let c = q[qi + x].restrict(lim.q_min[qi + x], lim.q_max[qi + x]);
            r.set(qi + x, c);
        }
        assert forall|y: int| 0 <= y < q@.len() implies #[trigger] r@[y] == if has_limits_below(
            *model,
            i + 1,
            y,
        ) {
            q@[y].clamped(lim.q_min@[y], lim.q_max@[y])
        } else {
            q@[y]
        } by {
            if has_limits_below(*model, i + 1, y) {
                let j = choose|j: int| 0 <= j < i + 1 && #[trigger] has_limits(*model, j, y);
                if j < i {
                    assert(has_limits_below(*model, i as int, y));
                }
            }
            if has_limits_below(*model, i as int, y) {
                let j = choose|j: int| 0 <= j < i && #[trigger] has_limits(*model, j, y);
                assert(has_limits(*model, j, y));
                assert(has_limits_below(*model, i + 1, y));
            }
            if qi <= y < qi + m {
                assert(has_limits(*model, i as int, y));
            }
        }
    }
    r
}

/// Whether the configuration lies within the limits, but for numbers that are not
/// comparable or have contradictory limits.
pub open spec fn within(m: Model, lim: JointLimits, q: Seq<Real>) -> bool {
    forall|i: int, x: int|
        #![trigger has_limits(m, i, x)]
        0 <= i < m.joints@.len() && has_limits(m, i, x) && !q[x].nan() && lim.q_min@[x].at_most(
            lim.q_max@[x],
        ) ==> lim.q_min@[x].at_most(q[x]) && q[x].at_most(lim.q_max@[x])
}

/// A configuration that was moved into the limits lies within them.
pub proof fn clamped_configuration_is_within(m: Model, lim: JointLimits, q: Seq<Real>, r: Seq<Real>)
    requires
        m.wf(),
        q.len() == m.nq,
        clamps(m, lim, q, r),
    ensures
        within(m, lim, r),
{
    assert forall|i: int, x: int|
        #![trigger has_limits(m, i, x)]
        0 <= i < m.joints@.len() && has_limits(m, i, x) && !r[x].nan() && lim.q_min@[x].at_most(
            lim.q_max@[x],
        ) implies lim.q_min@[x].at_most(r[x]) && r[x].at_most(lim.q_max@[x]) by {
        m.ranges(i);
        assert(has_limits_below(m, m.joints@.len() as int, x));
        assert(r[x] == q[x].clamped(lim.q_min@[x], lim.q_max@[x]));
        if !q[x].nan() {
            crate::number::clamped_is_within(q[x], lim.q_min@[x], lim.q_max@[x]);
        }
    }
}

/// Moving a configuration into the limits twice is the same as once.
pub proof fn clamping_is_idempotent(m: Model, lim: JointLimits, q: Seq<Real>, r: Seq<Real>, s: Seq<Real>)
    requires
        clamps(m, lim, q, r),
        clamps(m, lim, r, s),
        forall|x: int| 0 <= x < q.len() ==> (#[trigger] lim.q_min@[x]).at_most(lim.q_max@[x]),
    ensures
        s == r,
{
    assert forall|x: int| 0 <= x < r.len() implies s[x] == r[x] by {
        assert(lim.q_min@[x].at_most(lim.q_max@[x]));
        assert(r[x] == r[x]);
    }
    assert(s =~= r);
}

/// Whether `r` is the velocity `v` moved into the limits.
pub open spec fn saturates(lim: JointLimits, v: Seq<Real>, r: Seq<Real>) -> bool {
    &&& r.len() == v.len()
    &&& forall|i: int|
        0 <= i < v.len() ==> #[trigger] r[i] == v[i].clamped(lim.v_max@[i].negated(), lim.v_max@[i])
}

/// Moves a velocity into the limits.
pub fn saturate_velocity(model: &Model, v: &[Real], lim: &JointLimits) -> (r: Vec<Real>)
    requires
        v@.len() == model.nv,
        lim.fits(*model),
    ensures
        saturates(*lim, v@, r@),
{
    let mut r: Vec<Real> = Vec::new();
    for i in 0..model.nv
        invariant
            v@.len() == model.nv,
            lim.fits(*model),
            r@.len() == i,
            forall|j: int|
                0 <= j < i ==> #[trigger] r@[j] == v@[j].clamped(lim.v_max@[j].negated(), lim.v_max@[j]),
    {
        r.push(v[i].restrict(lim.v_max[i].neg(), lim.v_max[i]));
    }
    r
}

} // verus!
