//! Inverse dynamics: the torques that a motion takes.

use vstd::prelude::*;
use crate::aba;
use crate::crba;
use crate::fk;
use crate::jacobian;
use crate::data::{repeat, Data};
use crate::fk::forward_kinematics_acceleration;
use crate::model::Model;
use crate::number::Real;
use crate::spatial::{Inertia, Motion, Placement, SpatialMath};

verus! {

/// Whether `f` is the force that body `i` takes to move and accelerate as it does.
pub open spec fn body_force<K: SpatialMath>(k: &K, m: Model, d: Data, i: int, f: Motion) -> bool {
    exists|inertia: Inertia, push: Motion, momentum: Motion, turn: Motion|
        {
            &&& call_ensures(K::body_inertia, (k, m.inertias@[i]), inertia)
            &&& #[trigger] call_ensures(K::inertia_times, (k, inertia, d.a@[i]), push)
            &&& #[trigger] call_ensures(K::inertia_times, (k, inertia, d.v@[i]), momentum)
            &&& #[trigger] call_ensures(K::force_cross, (k, d.v@[i], momentum), turn)
            &&& call_ensures(K::motion_sum, (k, push, turn), f)
        }
}

/// Whether the force on body `i` is added to that on its parent on the way from `s` to `t`.
pub open spec fn gathered<K: SpatialMath>(
    k: &K,
    m: Model,
    x: Seq<Placement>,
    i: int,
    s: Seq<Motion>,
    t: Seq<Motion>,
) -> bool {
    let p = m.parent(i);
    if p > 0 {
        &&& exists|f: Motion| #[trigger]
            call_ensures(K::force_to_parent, (k, x[i], s[i]), f) && call_ensures(
                K::motion_sum,
                (k, s[p], f),
                t[p],
            )
        &&& t == s.update(p, t[p])
    } else {
        t == s
    }
}

/// Whether `history` leads from the forces on the single bodies to those that the joints
/// transmit, last joint first: its `i`-th entry is the state before body `i` is handled.
pub open spec fn gathering<K: SpatialMath>(k: &K, m: Model, d: Data, history: Seq<Seq<Motion>>) -> bool {
    let n = m.joints@.len() as int;
    &&& history.len() == n
    &&& history[n - 1].len() == n
    &&& forall|i: int| 1 <= i < n ==> #[trigger] body_force(k, m, d, i, history[n - 1][i])
    &&& forall|i: int|
        1 <= i < n ==> #[trigger] gathered(
            k,
            m,
            d.joint_placements@,
            i,
            history[i],
            history[i - 1],
        )
}

/// Whether `tau` are the parts of the transmitted forces along the joints' directions.
pub open spec fn torques<K: SpatialMath>(k: &K, m: Model, history: Seq<Seq<Motion>>, tau: Seq<Real>) -> bool {
    &&& tau.len() == m.nv
    &&& forall|i: int, c: int|
        #![trigger jacobian::owns(m, i, c)]
        1 <= i < m.joints@.len() && jacobian::owns(m, i, c) ==> call_ensures(
            K::dot,
            (k, crba::direction(m, i, c), history[i][i]),
            tau[c],
        )
}

/// Whether `tau` are the torques that a motion takes.
pub open spec fn inverse_dynamics<K: SpatialMath>(
    k: &K,
    m: Model,
    q: Seq<Real>,
    v: Seq<Real>,
    a: Seq<Real>,
    tau: Seq<Real>,
) -> bool {
    exists|d: Data, history: Seq<Seq<Motion>>|
        {
            &&& d.fits(m)
            &&& fk::all_placed(k, m, q, d)
            &&& fk::drives_up_to(k, m, v, a, d, m.joints@.len() as int)
            &&& #[trigger] gathering(k, m, d, history)
            &&& torques(k, m, history, tau)
        }
}

fn compute_body_force<K: SpatialMath>(k: &K, model: &Model, d: &Data, i: usize) -> (f: Motion)
    requires
        model.wf(),
        d.fits(*model),
        i < model.joints@.len(),
    ensures
        body_force(k, *model, *d, i as int, f),
{
    let inertia = k.body_inertia(model.inertias[i]);
    let push = k.inertia_times(inertia, d.a[i]);
    let momentum = k.inertia_times(inertia, d.v[i]);
    let turn = k.force_cross(d.v[i], momentum);
    let f = k.motion_sum(push, turn);
    assert(call_ensures(K::inertia_times, (k, inertia, d.a@[i as int]), push));
    assert(call_ensures(K::inertia_times, (k, inertia, d.v@[i as int]), momentum));
    assert(call_ensures(K::force_cross, (k, d.v@[i as int], momentum), turn));
    f
}

/// Writes the torques of joint `i` for the force that it transmits.
fn write_torques<K: SpatialMath>(k: &K, model: &Model, i: usize, f: Motion, tau: &mut Vec<Real>)
    requires
        model.wf(),
        i < model.joints@.len(),
        old(tau)@.len() == model.nv,
    ensures
        final(tau)@.len() == model.nv,
        forall|c: int|
            0 <= c < model.nv ==> if jacobian::owns(*model, i as int, c) {
                call_ensures(K::dot, (k, crba::direction(*model, i as int, c), f), #[trigger] final(tau)@[c])
            } else {
                final(tau)@[c] == old(tau)@[c]
            },
{
    proof {
        model.ranges(i as int);
    }
    let vi: usize = model.v_idx[i];
    let s = model.joints[i].joint_type.motion_subspace();
    let n: usize = s.len();
    let ghost start = tau@;
    for c in 0..n
        invariant
            n == s@.len(),
            i < model.joints@.len(),
            vi == model.v_idx@[i as int],
            s@ == model.kind(i as int).subspace(),
            n == model.kind(i as int).nv(),
            vi + n <= model.nv,
            tau@.len() == model.nv,
            forall|y: int|
                0 <= y < model.nv ==> if vi <= y < vi + c {
                    call_ensures(K::dot, (k, crba::direction(*model, i as int, y), f), #[trigger] tau@[y])
                } else {
                    tau@[y] == start[y]
                },
    {
        let x = k.dot(s[c], f);
        tau.set(vi + c, x);
    }
}

/// The torques that a motion takes.
pub fn rnea<K: SpatialMath>(k: &K, model: &Model, q: &[Real], v: &[Real], a: &[Real]) -> (tau: Vec<Real>)
    requires
        model.wf(),
        q@.len() == model.nq,
        v@.len() == model.nv,
        a@.len() == model.nv,
    ensures
        tau@.len() == model.nv,
        inverse_dynamics(k, *model, q@, v@, a@, tau@),
{
    let d = forward_kinematics_acceleration(k, model, q, v, a);
    let n: usize = model.joints.len();
    let mut f: Vec<Motion> = Vec::new();
    f.push(Motion::zero());
    for i in 1..n
        invariant
            n == model.joints@.len(),
            model.wf(),
            d.fits(*model),
            f@.len() == i,
            forall|j: int| 1 <= j < i ==> #[trigger] body_force(k, *model, d, j, f@[j]),
    {
        f.push(compute_body_force(k, model, &d, i));
    }
    let ghost singles = f@;
    let ghost mut history: Seq<Seq<Motion>> = Seq::new(n as nat, |i: int| singles);
    let mut tau: Vec<Real> = repeat(Real::zero(), model.nv);
    let mut i: usize = n - 1;
    while i > 0
        invariant
            n == model.joints@.len(),
            model.wf(),
            d.fits(*model),
            i < n,
            f@.len() == n,
            tau@.len() == model.nv,
            history.len() == n,
            history[n - 1] == singles,
            history[i as int] == f@,
            forall|j: int|
                i < j < n ==> #[trigger] gathered(
                    k,
                    *model,
                    d.joint_placements@,
                    j,
                    history[j],
                    history[j - 1],
                ),
            forall|j: int, c: int|
                #![trigger jacobian::owns(*model, j, c)]
                i < j < n && jacobian::owns(*model, j, c) ==> call_ensures(
                    K::dot,
                    (k, crba::direction(*model, j, c), history[j][j]),
                    tau@[c],
                ),
        decreases i,
    {
        let ghost s0 = f@;
        let ghost h0 = history;
        let ghost t0 = tau@;
        let p: usize = model.joints[i].parent;
        let x = d.joint_placements[i];
        write_torques(k, model, i, f[i], &mut tau);
        if p > 0 {
            let moved = k.force_to_parent(x, f[i]);
            let sum = k.motion_sum(f[p], moved);
            assert(call_ensures(K::force_to_parent, (k, x, s0[i as int]), moved));
            f.set(p, sum);
        }
        proof {
            history = history.update(i - 1, f@);
            assert(gathered(k, *model, d.joint_placements@, i as int, s0, f@)) by {
                assert(p < i);
                if p > 0 {
                    assert(f@ =~= s0.update(p as int, f@[p as int]));
                }
            }
            assert forall|j: int| i - 1 < j < n implies #[trigger] gathered(
                k,
                *model,
                d.joint_placements@,
                j,
                history[j],
                history[j - 1],
            ) by {
                if j > i {
                    assert(gathered(k, *model, d.joint_placements@, j, h0[j], h0[j - 1]));
                }
            }
            assert forall|j: int, c: int|
                #![trigger jacobian::owns(*model, j, c)]
                i - 1 < j < n && jacobian::owns(*model, j, c) implies call_ensures(
                K::dot,
                (k, crba::direction(*model, j, c), history[j][j]),
                tau@[c],
            ) by {
                jacobian::owners_differ(*model, j, j, c);
                assert(tau@[c] == tau@[c]);
                if j > i {
                    if jacobian::owns(*model, i as int, c) {
                        jacobian::owners_differ(*model, i as int, j, c);
                    }
                    assert(tau@[c] == t0[c]);
                    assert(history[j] == h0[j]);
                }
            }
        }
        i = i - 1;
    }
    assert(gathering(k, *model, d, history));
    tau
}

/// The torques that the velocity and gravity take.
pub fn nonlinear_effects<K: SpatialMath>(k: &K, model: &Model, q: &[Real], v: &[Real]) -> (tau: Vec<Real>)
    requires
        model.wf(),
        q@.len() == model.nq,
        v@.len() == model.nv,
    ensures
        tau@.len() == model.nv,
        inverse_dynamics(k, *model, q@, v@, aba::zeros(model.nv as int), tau@),
{
    let rest = repeat(Real::zero(), model.nv);
    assert(rest@ =~= aba::zeros(model.nv as int));
    rnea(k, model, q, v, rest.as_slice())
}

/// The torques that gravity takes.
pub fn compute_gravity<K: SpatialMath>(k: &K, model: &Model, q: &[Real]) -> (tau: Vec<Real>)
    requires
        model.wf(),
        q@.len() == model.nq,
    ensures
        tau@.len() == model.nv,
        inverse_dynamics(k, *model, q@, aba::zeros(model.nv as int), aba::zeros(model.nv as int), tau@),
{
    let rest = repeat(Real::zero(), model.nv);
    assert(rest@ =~= aba::zeros(model.nv as int));
    rnea(k, model, q, rest.as_slice(), rest.as_slice())
}

} // verus!
