//! Forward dynamics by articulated bodies.

use vstd::prelude::*;
use crate::algebra;
use crate::balance;
use crate::crba;
use crate::exact;
use crate::rigid;
use crate::fk;
use crate::model;
use crate::release;
use crate::spatial;
use crate::data::repeat;
use crate::matrix;
use crate::matrix::Matrix;
use crate::fk::body_velocity;
use crate::model::{relative_placement, Model};
use crate::number::{Real, Vector3};
use crate::release::{answer, bias_force, reduce};
use crate::spatial::{world_acceleration, Inertia, Motion, Placement, SpatialMath};

verus! {

/// State of a body on the way out from the world.
#[derive(Clone, Copy, Debug)]
pub struct Body {
    /// Placement in the frame of the parent.
    pub placement: Placement,
    pub velocity: Motion,
    /// Acceleration that the velocity alone causes.
    pub drift: Motion,
    pub inertia: Inertia,
    /// Force that the velocity alone takes.
    pub force: Motion,
}

/// A body together with what is attached to it: inertia and bias force.
#[derive(Clone, Copy, Debug)]
pub struct Articulated {
    pub inertia: Inertia,
    pub force: Motion,
}

/// What is needed to solve for the acceleration of a joint.
#[derive(Clone, Debug)]
pub struct JointSolve {
    /// Forces for the motions that the joint allows.
    pub u: Vec<Motion>,
    /// Inertia along these motions.
    pub d: Vec<Vec<Real>>,
    /// Torque that is left for acceleration.
    pub e: Vec<Real>,
}

impl JointSolve {
    /// Whether there are `n` directions of motion.
    pub open spec fn square(self, n: int) -> bool {
        &&& self.u@.len() == n
        &&& self.d@.len() == n
        &&& self.e@.len() == n
        &&& forall|r: int| 0 <= r < n ==> (#[trigger] self.d@[r])@.len() == n
    }
}

/// Whether `b` is the state of body `i`, when the parent's velocity is `above`.
pub open spec fn body_state<K: SpatialMath>(
    k: &K,
    m: Model,
    q: Seq<Real>,
    v: Seq<Real>,
    i: int,
    above: Motion,
    b: Body,
) -> bool {
    &&& model::relative(k, m, q, i, b.placement)
    &&& exists|own: Motion|
        {
            &&& #[trigger] fk::moving(k, m, v, b.placement, above, i, own, b.velocity)
            &&& call_ensures(K::motion_cross, (k, b.velocity, own), b.drift)
        }
    &&& call_ensures(K::body_inertia, (k, m.inertias@[i]), b.inertia)
    &&& exists|h: Motion| #[trigger]
        call_ensures(K::inertia_times, (k, b.inertia, b.velocity), h) && call_ensures(
            K::force_cross,
            (k, b.velocity, h),
            b.force,
        )
}

/// Whether the first `n` bodies are in the states that configuration and velocity give them.
pub open spec fn body_states<K: SpatialMath>(
    k: &K,
    m: Model,
    q: Seq<Real>,
    v: Seq<Real>,
    b: Seq<Body>,
    n: int,
) -> bool {
    &&& b.len() >= n
    &&& b[0].velocity == Motion::zero()
    &&& forall|i: int| 1 <= i < n ==> #[trigger] body_state(k, m, q, v, i, b[m.parent(i)].velocity, b[i])
}

/// From the world outwards: velocities and what they cause.
fn outward<K: SpatialMath>(k: &K, model: &Model, q: &[Real], v: &[Real]) -> (b: Vec<Body>)
    requires
        model.wf(),
        q@.len() == model.nq,
        v@.len() == model.nv,
    ensures
        b@.len() == model.joints@.len(),
        body_states(k, *model, q@, v@, b@, b@.len() as int),
{
    let mut b: Vec<Body> = Vec::new();
    b.push(
        Body {
            placement: Placement::identity(),
            velocity: Motion::zero(),
            drift: Motion::zero(),
            inertia: Inertia::zero(),
            force: Motion::zero(),
        },
    );
    let n: usize = model.joints.len();
    for i in 1..n
        invariant
            n == model.joints@.len(),
            model.wf(),
            q@.len() == model.nq,
            v@.len() == model.nv,
            b@.len() == i,
            body_states(k, *model, q@, v@, b@, i as int),
    {
        let ghost before = b@;
        let parent: usize = model.joints[i].parent;
        let placement = relative_placement(k, model, q, i);
        let above = b[parent].velocity;
        let (own, velocity) = body_velocity(k, model, v, placement, above, i);
        let drift = k.motion_cross(velocity, own);
        let inertia = k.body_inertia(model.inertias[i]);
        let h = k.inertia_times(inertia, velocity);
        let force = k.force_cross(velocity, h);
        let x = Body { placement, velocity, drift, inertia, force };
        assert(fk::moving(k, *model, v@, placement, above, i as int, own, velocity));
        assert(call_ensures(K::inertia_times, (k, inertia, velocity), h));
        b.push(x);
        assert forall|j: int| 1 <= j < i + 1 implies #[trigger] body_state(
            k,
            *model,
            q@,
            v@,
            j,
            b@[model.parent(j)].velocity,
            b@[j],
        ) by {
            assert(model.joints@[j].parent < j);
            if j < i {
                assert(body_state(k, *model, q@, v@, j, before[model.parent(j)].velocity, before[j]));
            }
        }
    }
    b
}

/// Whether `s` is what is needed to solve for the acceleration of joint `i`.
pub open spec fn solvable<K: SpatialMath>(
    k: &K,
    m: Model,
    tau: Seq<Real>,
    i: int,
    a: Articulated,
    s: JointSolve,
) -> bool {
    let n = m.kind(i).nv() as int;
    let dirs = m.kind(i).subspace();
    &&& s.square(n)
    &&& forall|c: int|
        0 <= c < n ==> call_ensures(K::inertia_times, (k, a.inertia, dirs[c]), #[trigger] s.u@[c])
    &&& forall|r: int, c: int|
        0 <= r < n && 0 <= c < n ==> call_ensures(K::dot, (k, dirs[r], s.u@[c]), #[trigger] s.d@[r]@[c])
    &&& forall|c: int|
        0 <= c < n ==> left_over(k, tau[m.v_idx@[i] + c], dirs[c], a.force, #[trigger] s.e@[c])
}

/// Whether `r` is the torque without what the force takes along `dir`.
pub open spec fn left_over<K: SpatialMath>(k: &K, torque: Real, dir: Motion, force: Motion, r: Real) -> bool {
    exists|t: Real| #[trigger]
        call_ensures(K::dot, (k, dir, force), t) && call_ensures(K::difference, (k, torque, t), r)
}

fn prepare<K: SpatialMath>(k: &K, model: &Model, tau: &[Real], i: usize, a: Articulated) -> (s: JointSolve)
    requires
        model.wf(),
        tau@.len() == model.nv,
        i < model.joints@.len(),
    ensures
        solvable(k, *model, tau@, i as int, a, s),
{
    proof {
        model.ranges(i as int);
    }
    let vi: usize = model.v_idx[i];
    let dirs = model.joints[i].joint_type.motion_subspace();
    let n: usize = dirs.len();
    let mut u: Vec<Motion> = Vec::new();
    for c in 0..n
        invariant
            n == dirs@.len(),
            u@.len() == c,
            forall|x: int|
                0 <= x < c ==> call_ensures(K::inertia_times, (k, a.inertia, dirs@[x]), #[trigger] u@[x]),
    {
        u.push(k.inertia_times(a.inertia, dirs[c]));
    }
    let mut d: Vec<Vec<Real>> = Vec::new();
    for r in 0..n
        invariant
            n == dirs@.len(),
            n == u@.len(),
            d@.len() == r,
            forall|x: int| 0 <= x < r ==> (#[trigger] d@[x])@.len() == n,
            forall|x: int, y: int|
                0 <= x < r && 0 <= y < n ==> call_ensures(
                    K::dot,
                    (k, dirs@[x], u@[y]),
                    #[trigger] d@[x]@[y],
                ),
    {
        let mut row: Vec<Real> = Vec::new();
        for c in 0..n
            invariant
                n == dirs@.len(),
                n == u@.len(),
                r < n,
                row@.len() == c,
                forall|y: int|
                    0 <= y < c ==> call_ensures(K::dot, (k, dirs@[r as int], u@[y]), #[trigger] row@[y]),
        {
            row.push(k.dot(dirs[r], u[c]));
        }
        d.push(row);
    }
    let mut e: Vec<Real> = Vec::new();
    for c in 0..n
        invariant
            n == dirs@.len(),
            vi + n <= tau@.len(),
            tau@.len() == tau.len(),
            e@.len() == c,
            forall|x: int|
                0 <= x < c ==> left_over(k, tau@[vi + x], dirs@[x], a.force, #[trigger] e@[x]),
    {
        let t = k.dot(dirs[c], a.force);
        let x = k.difference(tau[vi + c], t);
        assert(left_over(k, tau@[vi + c], dirs@[c as int], a.force, x));
        e.push(x);
    }
    JointSolve { u, d, e }
}

/// Whether `r` is the articulated body `a` as felt in front of its joint `i`.
pub open spec fn released<K: SpatialMath>(
    k: &K,
    m: Model,
    i: int,
    drift: Motion,
    a: Articulated,
    s: JointSolve,
    r: Articulated,
) -> bool {
    if m.kind(i).nv() > 0 {
        &&& release::reduces(k, a.inertia, s.u@, s.d, r.inertia)
        &&& release::pushes(k, a.force, r.inertia, drift, s.u@, s.d, s.e, r.force)
    } else {
        &&& r.inertia == a.inertia
        &&& exists|h: Motion| #[trigger]
            call_ensures(K::inertia_times, (k, a.inertia, drift), h) && call_ensures(
                K::motion_sum,
                (k, a.force, h),
                r.force,
            )
    }
}

/// Whether `r` is `a` with the body `b`, placed at `x`, attached.
pub open spec fn attached<K: SpatialMath>(
    k: &K,
    x: Placement,
    a: Articulated,
    b: Articulated,
    r: Articulated,
) -> bool {
    exists|i: Inertia, f: Motion|
        {
            &&& #[trigger] call_ensures(K::inertia_to_parent, (k, x, b.inertia), i)
            &&& call_ensures(K::inertia_sum, (k, a.inertia, i), r.inertia)
            &&& #[trigger] call_ensures(K::force_to_parent, (k, x, b.force), f)
            &&& call_ensures(K::motion_sum, (k, a.force, f), r.force)
        }
}

/// Whether handling joint `i` leads from the articulated bodies `s` to `t`: the body is
/// released and attached to its parent, unless that is the world.
pub open spec fn inward_step<K: SpatialMath>(
    k: &K,
    m: Model,
    tau: Seq<Real>,
    b: Seq<Body>,
    i: int,
    s: Seq<Articulated>,
    js: JointSolve,
    t: Seq<Articulated>,
) -> bool {
    let p = m.parent(i);
    &&& solvable(k, m, tau, i, s[i], js)
    &&& t.len() == s.len()
    &&& released(k, m, i, b[i].drift, s[i], js, t[i])
    &&& if p > 0 {
        &&& attached(k, b[i].placement, s[p], t[i], t[p])
        &&& t == s.update(i, t[i]).update(p, t[p])
    } else {
        t == s.update(i, t[i])
    }
}

/// Whether `history` leads from the single bodies to the articulated ones, last joint
/// first: its `i`-th entry is the state before joint `i` is handled.
pub open spec fn inward_pass<K: SpatialMath>(
    k: &K,
    m: Model,
    tau: Seq<Real>,
    b: Seq<Body>,
    js: Seq<JointSolve>,
    history: Seq<Seq<Articulated>>,
) -> bool {
    let n = m.joints@.len() as int;
    &&& js.len() == n
    &&& history.len() == n
    &&& history[n - 1] == b.map_values(|x: Body| Articulated { inertia: x.inertia, force: x.force })
    &&& forall|i: int|
        1 <= i < n ==> #[trigger] inward_step(k, m, tau, b, i, history[i], js[i], history[i - 1])
}

fn release<K: SpatialMath>(
    k: &K,
    model: &Model,
    i: usize,
    drift: Motion,
    a: Articulated,
    s: &JointSolve,
) -> (r: Articulated)
    requires
        i < model.joints@.len(),
        s.square(model.kind(i as int).nv() as int),
    ensures
        released(k, *model, i as int, drift, a, *s, r),
{
    if model.joints[i].joint_type.nv() > 0 {
        let inertia = reduce(k, &a.inertia, &s.u, &s.d);
        let force = bias_force(k, a.force, inertia, drift, &s.u, &s.d, &s.e);
        Articulated { inertia, force }
    } else {
        let h = k.inertia_times(a.inertia, drift);
        let force = k.motion_sum(a.force, h);
        assert(call_ensures(K::inertia_times, (k, a.inertia, drift), h));
        Articulated { inertia: a.inertia, force }
    }
}

/// From the last joint inwards: articulated bodies.
fn inward<K: SpatialMath>(k: &K, model: &Model, tau: &[Real], b: &Vec<Body>) -> (r: (
    Vec<JointSolve>,
    Ghost<Seq<Seq<Articulated>>>,
))
    requires
        model.wf(),
        tau@.len() == model.nv,
        b@.len() == model.joints@.len(),
    ensures
        r.0@.len() == model.joints@.len(),
        inward_pass(k, *model, tau@, b@, r.0@, r.1@),
{
    let n: usize = model.joints.len();
    let mut state: Vec<Articulated> = Vec::new();
    let mut js: Vec<JointSolve> = Vec::new();
    for i in 0..n
        invariant
            n == b@.len(),
            state@ == b@.map_values(|x: Body| Articulated { inertia: x.inertia, force: x.force }).take(
                i as int,
            ),
            js@.len() == i,
    {
        state.push(Articulated { inertia: b[i].inertia, force: b[i].force });
        js.push(JointSolve { u: Vec::new(), d: Vec::new(), e: Vec::new() });
        assert(state@ =~= b@.map_values(
            |x: Body| Articulated { inertia: x.inertia, force: x.force },
        ).take(i + 1));
    }
    let ghost singles = b@.map_values(|x: Body| Articulated { inertia: x.inertia, force: x.force });
    assert(state@ =~= singles);
    let ghost mut history: Seq<Seq<Articulated>> = Seq::new(n as nat, |i: int| singles);
    let mut i: usize = n - 1;
    while i > 0
        invariant
            n == model.joints@.len(),
            model.wf(),
            tau@.len() == model.nv,
            b@.len() == n,
            i < n,
            state@.len() == n,
            js@.len() == n,
            history.len() == n,
            history[n - 1] == singles,
            history[i as int] == state@,
            forall|j: int|
                i < j < n ==> #[trigger] inward_step(
                    k,
                    *model,
                    tau@,
                    b@,
                    j,
                    history[j],
                    js@[j],
                    history[j - 1],
                ),
        decreases i,
    {
        let ghost s0 = state@;
        let ghost h0 = history;
        let ghost j0 = js@;
        let p: usize = model.joints[i].parent;
        let a = state[i];
        let s = prepare(k, model, tau, i, a);
        let r = release(k, model, i, b[i].drift, a, &s);
        state.set(i, r);
        if p > 0 {
            let x = b[i].placement;
            let above = state[p];
            let ti = k.inertia_to_parent(x, r.inertia);
            let inertia = k.inertia_sum(above.inertia, ti);
            let tf = k.force_to_parent(x, r.force);
            let force = k.motion_sum(above.force, tf);
            let sum = Articulated { inertia, force };
            assert(attached(k, x, above, r, sum)) by {
                assert(call_ensures(K::inertia_to_parent, (k, x, r.inertia), ti));
                assert(call_ensures(K::force_to_parent, (k, x, r.force), tf));
            }
            state.set(p, sum);
        }
        js.set(i, s);
        proof {
            history = history.update(i - 1, state@);
            assert(inward_step(k, *model, tau@, b@, i as int, s0, js@[i as int], state@)) by {
                assert(p < i);
                if p > 0 {
                    assert(state@ =~= s0.update(i as int, state@[i as int]).update(
                        p as int,
                        state@[p as int],
                    ));
                } else {
                    assert(state@ =~= s0.update(i as int, state@[i as int]));
                }
            }
            assert forall|j: int| i - 1 < j < n implies #[trigger] inward_step(
                k,
                *model,
                tau@,
                b@,
                j,
                history[j],
                js@[j],
                history[j - 1],
            ) by {
                if j > i {
                    assert(inward_step(k, *model, tau@, b@, j, h0[j], j0[j], h0[j - 1]));
                }
            }
        }
        i = i - 1;
    }
    (js, Ghost(history))
}

/// Whether `r` is `start` plus the first `n` vectors, each times its number.
pub open spec fn combination_on<K: SpatialMath>(
    k: &K,
    start: Motion,
    s: Seq<Motion>,
    x: Seq<Real>,
    at: int,
    n: int,
    r: Motion,
) -> bool
    decreases n,
{
    if n <= 0 {
        r == start
    } else {
        exists|p: Motion|
            {
                &&& combination_on(k, start, s, x, at, n - 1, p)
                &&& #[trigger] call_ensures(K::motion_add_scaled, (k, p, s[n - 1], x[at + n - 1]), r)
            }
    }
}

/// Whether `rhs` is what the joint has left after the acceleration `a`.
pub open spec fn remaining<K: SpatialMath>(k: &K, s: JointSolve, a: Motion, rhs: Seq<Real>) -> bool {
    &&& rhs.len() == s.u@.len()
    &&& forall|c: int| 0 <= c < rhs.len() ==> left_over(k, s.e@[c], s.u@[c], a, #[trigger] rhs[c])
}

/// Whether `qdd` holds the acceleration of joint `i`, and `r` is that of its body, when the
/// parent's is `above`.
pub open spec fn outward_step<K: SpatialMath>(
    k: &K,
    m: Model,
    b: Body,
    s: JointSolve,
    i: int,
    above: Motion,
    qdd: Seq<Real>,
    r: Motion,
) -> bool {
    exists|t: Motion, a: Motion|
        {
            &&& #[trigger] call_ensures(K::motion_to_child, (k, b.placement, above), t)
            &&& #[trigger] call_ensures(K::motion_sum, (k, t, b.drift), a)
            &&& if m.kind(i).nv() > 0 {
                &&& solved(k, m, s, i, a, qdd)
                &&& combination_on(
                    k,
                    a,
                    m.kind(i).subspace(),
                    qdd,
                    m.v_idx@[i] as int,
                    m.kind(i).nv() as int,
                    r,
                )
            } else {
                r == a
            }
        }
}

/// Whether `qdd` holds the solution for the acceleration of joint `i`.
pub open spec fn solved<K: SpatialMath>(k: &K, m: Model, s: JointSolve, i: int, a: Motion, qdd: Seq<Real>) -> bool {
    exists|rhs: Vec<Real>, x: [Real; 6]|
        {
            &&& #[trigger] remaining(k, s, a, rhs@)
            &&& #[trigger] release::answers(k, s.d, rhs, x)
            &&& forall|c: int|
                0 <= c < m.kind(i).nv() ==> qdd[m.v_idx@[i] + c] == #[trigger] x[c]
        }
}

/// Whether `qdd` are the accelerations of the joints and `acc` those of the bodies.
pub open spec fn outward_pass<K: SpatialMath>(
    k: &K,
    m: Model,
    gravity: Vector3,
    b: Seq<Body>,
    js: Seq<JointSolve>,
    qdd: Seq<Real>,
    acc: Seq<Motion>,
) -> bool {
    &&& qdd.len() == m.nv
    &&& acc.len() == m.joints@.len()
    &&& acc[0] == spatial::against(gravity)
    &&& forall|i: int|
        1 <= i < m.joints@.len() ==> #[trigger] outward_step(
            k,
            m,
            b[i],
            js[i],
            i,
            acc[m.parent(i)],
            qdd,
            acc[i],
        )
}

proof fn combination_on_frame<K: SpatialMath>(
    k: &K,
    start: Motion,
    s: Seq<Motion>,
    x: Seq<Real>,
    y: Seq<Real>,
    at: int,
    n: int,
    r: Motion,
)
    requires
        combination_on(k, start, s, x, at, n, r),
        forall|c: int| at <= c < at + n ==> x[c] == y[c],
    ensures
        combination_on(k, start, s, y, at, n, r),
    decreases n,
{
    if n > 0 {
        let p = choose|p: Motion|
            {
                &&& combination_on(k, start, s, x, at, n - 1, p)
                &&& #[trigger] call_ensures(K::motion_add_scaled, (k, p, s[n - 1], x[at + n - 1]), r)
            };
        combination_on_frame(k, start, s, x, y, at, n - 1, p);
        assert(call_ensures(K::motion_add_scaled, (k, p, s[n - 1], y[at + n - 1]), r));
    }
}

proof fn outward_step_frame<K: SpatialMath>(
    k: &K,
    m: Model,
    b: Body,
    s: JointSolve,
    i: int,
    above: Motion,
    x: Seq<Real>,
    y: Seq<Real>,
    r: Motion,
)
    requires
        outward_step(k, m, b, s, i, above, x, r),
        forall|c: int| m.v_idx@[i] <= c < m.v_idx@[i] + m.kind(i).nv() ==> x[c] == y[c],
    ensures
        outward_step(k, m, b, s, i, above, y, r),
{
    let (t, a) = choose|t: Motion, a: Motion|
        {
            &&& #[trigger] call_ensures(K::motion_to_child, (k, b.placement, above), t)
            &&& #[trigger] call_ensures(K::motion_sum, (k, t, b.drift), a)
            &&& if m.kind(i).nv() > 0 {
                &&& solved(k, m, s, i, a, x)
                &&& combination_on(
                    k,
                    a,
                    m.kind(i).subspace(),
                    x,
                    m.v_idx@[i] as int,
                    m.kind(i).nv() as int,
                    r,
                )
            } else {
                r == a
            }
        };
    if m.kind(i).nv() > 0 {
        combination_on_frame(
            k,
            a,
            m.kind(i).subspace(),
            x,
            y,
            m.v_idx@[i] as int,
            m.kind(i).nv() as int,
            r,
        );
        let (rhs, z) = choose|rhs: Vec<Real>, z: [Real; 6]|
            {
                &&& #[trigger] remaining(k, s, a, rhs@)
                &&& #[trigger] release::answers(k, s.d, rhs, z)
                &&& forall|c: int|
                    0 <= c < m.kind(i).nv() ==> x[m.v_idx@[i] + c] == #[trigger] z[c]
            };
        assert forall|c: int| 0 <= c < m.kind(i).nv() implies y[m.v_idx@[i] + c] == #[trigger] z[c] by {
            assert(x[m.v_idx@[i] + c] == z[c]);
        }
        assert(solved(k, m, s, i, a, y));
    }
}

fn solve_joint<K: SpatialMath>(
    k: &K,
    model: &Model,
    s: &JointSolve,
    i: usize,
    a: Motion,
    qdd: &mut Vec<Real>,
) -> (r: Motion)
    requires
        model.wf(),
        1 <= i < model.joints@.len(),
        model.kind(i as int).nv() > 0,
        s.square(model.kind(i as int).nv() as int),
        old(qdd)@.len() == model.nv,
    ensures
        final(qdd)@.len() == model.nv,
        forall|c: int|
            0 <= c < model.nv && !(model.v_idx@[i as int] <= c < model.v_idx@[i as int] + model.kind(
                i as int,
            ).nv()) ==> (#[trigger] final(qdd)@[c]) == old(qdd)@[c],
        solved(k, *model, *s, i as int, a, final(qdd)@),
        combination_on(
            k,
            a,
            model.kind(i as int).subspace(),
            final(qdd)@,
            model.v_idx@[i as int] as int,
            model.kind(i as int).nv() as int,
            r,
        ),
{
    proof {
        model.ranges(i as int);
    }
    let vi: usize = model.v_idx[i];
    let dirs = model.joints[i].joint_type.motion_subspace();
    let n: usize = dirs.len();
    let mut rhs: Vec<Real> = Vec::new();
    for c in 0..n
        invariant
            n == s.u@.len(),
            n == s.e@.len(),
            rhs@.len() == c,
            forall|x: int| 0 <= x < c ==> left_over(k, s.e@[x], s.u@[x], a, #[trigger] rhs@[x]),
    {
        let t = k.dot(s.u[c], a);
        let x = k.difference(s.e[c], t);
        assert(left_over(k, s.e@[c as int], s.u@[c as int], a, x));
        rhs.push(x);
    }
    let x: [Real; 6] = answer(k, &s.d, &rhs);
    assert(release::answers(k, s.d, rhs, x));
    assert(remaining(k, *s, a, rhs@));
    let ghost start = qdd@;
    for c in 0..n
        invariant
            n <= 6,
            vi + n <= model.nv,
            qdd@.len() == model.nv,
            forall|y: int| 0 <= y < c ==> qdd@[vi + y] == #[trigger] x[y],
            forall|y: int|
                0 <= y < model.nv && !(vi <= y < vi + n) ==> (#[trigger] qdd@[y]) == start[y],
    {
        qdd.set(vi + c, x[c]);
    }
    assert(solved(k, *model, *s, i as int, a, qdd@));
    let mut r = a;
    for c in 0..n
        invariant
            n == dirs@.len(),
            vi + n <= model.nv,
            qdd@.len() == model.nv,
            combination_on(k, a, dirs@, qdd@, vi as int, c as int, r),
    {
        let p = r;
        r = k.motion_add_scaled(p, dirs[c], qdd[vi + c]);
        assert(call_ensures(K::motion_add_scaled, (k, p, dirs@[c as int], qdd@[vi + c]), r));
    }
    r
}

/// From the world outwards: accelerations.
fn accelerate<K: SpatialMath>(
    k: &K,
    model: &Model,
    gravity: Vector3,
    b: &Vec<Body>,
    js: &Vec<JointSolve>,
) -> (r: (Vec<Real>, Ghost<Seq<Motion>>))
    requires
        model.wf(),
        b@.len() == model.joints@.len(),
        js@.len() == model.joints@.len(),
        forall|i: int|
            1 <= i < js@.len() ==> (#[trigger] js@[i]).square(model.kind(i).nv() as int),
    ensures
        outward_pass(k, *model, gravity, b@, js@, r.0@, r.1@),
{
    let n: usize = model.joints.len();
    let mut qdd: Vec<Real> = repeat(Real::zero(), model.nv);
    let mut acc: Vec<Motion> = Vec::new();
    acc.push(world_acceleration(gravity));
    for i in 1..n
        invariant
            n == model.joints@.len(),
            model.wf(),
            b@.len() == n,
            js@.len() == n,
            forall|i: int|
                1 <= i < js@.len() ==> (#[trigger] js@[i]).square(model.kind(i).nv() as int),
            qdd@.len() == model.nv,
            acc@.len() == i,
            acc@[0] == spatial::against(gravity),
            forall|j: int|
                1 <= j < i ==> #[trigger] outward_step(
                    k,
                    *model,
                    b@[j],
                    js@[j],
                    j,
                    acc@[model.parent(j)],
                    qdd@,
                    acc@[j],
                ),
    {
        let ghost q0 = qdd@;
        let ghost a0 = acc@;
        let parent: usize = model.joints[i].parent;
        let t = k.motion_to_child(b[i].placement, acc[parent]);
        let a = k.motion_sum(t, b[i].drift);
        assert(js@[i as int].square(model.kind(i as int).nv() as int));
        let r = if model.joints[i].joint_type.nv() > 0 {
            solve_joint(k, model, &js[i], i, a, &mut qdd)
        } else {
            a
        };
        acc.push(r);
        proof {
            assert(call_ensures(K::motion_to_child, (k, b@[i as int].placement, a0[parent as int]), t));
            assert(call_ensures(K::motion_sum, (k, t, b@[i as int].drift), a));
            assert forall|j: int| 1 <= j < i + 1 implies #[trigger] outward_step(
                k,
                *model,
                b@[j],
                js@[j],
                j,
                acc@[model.parent(j)],
                qdd@,
                acc@[j],
            ) by {
                assert(model.joints@[j].parent < j);
                if j < i {
                    assert(outward_step(
                        k,
                        *model,
                        b@[j],
                        js@[j],
                        j,
                        a0[model.parent(j)],
                        q0,
                        a0[j],
                    ));
                    model.ranges(i as int);
                    model.ranges(j);
                    assert(model.v_idx@[j] + model.kind(j).nv() <= model.v_idx@[i as int]);
                    assert forall|c: int| model.v_idx@[j] <= c < model.v_idx@[j] + model.kind(j).nv() implies q0[c]
                        == qdd@[c] by {}
                    outward_step_frame(
                        k,
                        *model,
                        b@[j],
                        js@[j],
                        j,
                        a0[model.parent(j)],
                        q0,
                        qdd@,
                        a0[j],
                    );
                }
            }
        }
    }
    (qdd, Ghost(acc@))
}

/// Whether `qdd` are the joint accelerations under the given torques and gravity: bodies
/// outwards, articulated bodies inwards, accelerations outwards.
pub open spec fn forward_dynamics<K: SpatialMath>(
    k: &K,
    m: Model,
    gravity: Vector3,
    q: Seq<Real>,
    v: Seq<Real>,
    tau: Seq<Real>,
    qdd: Seq<Real>,
) -> bool {
    exists|
        b: Seq<Body>,
        js: Seq<JointSolve>,
        history: Seq<Seq<Articulated>>,
        acc: Seq<Motion>,
    |
        {
            &&& b.len() == m.joints@.len()
            &&& body_states(k, m, q, v, b, m.joints@.len() as int)
            &&& #[trigger] inward_pass(k, m, tau, b, js, history)
            &&& #[trigger] outward_pass(k, m, gravity, b, js, qdd, acc)
        }
}

/// Joint accelerations under the given torques and gravity.
fn aba_under<K: SpatialMath>(
    k: &K,
    model: &Model,
    gravity: Vector3,
    q: &[Real],
    v: &[Real],
    tau: &[Real],
) -> (qdd: Vec<Real>)
    requires
        model.wf(),
        q@.len() == model.nq,
        v@.len() == model.nv,
        tau@.len() == model.nv,
    ensures
        qdd@.len() == model.nv,
        forward_dynamics(k, *model, gravity, q@, v@, tau@, qdd@),
{
    let b = outward(k, model, q, v);
    let (js, history) = inward(k, model, tau, &b);
    assert forall|i: int| 1 <= i < js@.len() implies (#[trigger] js@[i]).square(
        model.kind(i).nv() as int,
    ) by {
        assert(inward_step(k, *model, tau@, b@, i, history@[i], js@[i], history@[i - 1]));
    }
    let (qdd, acc) = accelerate(k, model, gravity, &b, &js);
    assert(inward_pass(k, *model, tau@, b@, js@, history@));
    assert(outward_pass(k, *model, gravity, b@, js@, qdd@, acc@));
    qdd
}

/// Joint accelerations under the given torques.
pub fn aba<K: SpatialMath>(k: &K, model: &Model, q: &[Real], v: &[Real], tau: &[Real]) -> (qdd: Vec<Real>)
    requires
        model.wf(),
        q@.len() == model.nq,
        v@.len() == model.nv,
        tau@.len() == model.nv,
    ensures
        qdd@.len() == model.nv,
        forward_dynamics(k, *model, model.gravity, q@, v@, tau@, qdd@),
{
    aba_under(k, model, model.gravity, q, v, tau)
}

/// A vector of `n` zeros.
pub open spec fn zeros(n: int) -> Seq<Real> {
    Seq::new(n as nat, |i: int| Real::zero())
}

/// The `c`-th of `n` unit vectors.
pub open spec fn unit(n: int, c: int) -> Seq<Real> {
    zeros(n).update(c, Real::one())
}

/// Whether `mass` is the mass matrix of a configuration, in an arithmetic that is exact and for links whose
/// rotational inertia is the same by row and by column.
pub open spec fn is_mass_matrix<K: SpatialMath>(k: &K, m: Model, q: Seq<Real>, mass: Matrix) -> bool {
    &&& rigid::exact_arithmetic(k)
    &&& rigid::balanced(m)
    &&& mass.sized(m.nv as int, m.nv as int)
    &&& crba::mass_matrix(k, m, q, mass)
}

/// Whether the entry at `b` and `c` of `mass` times `r` is that of the unit matrix.
pub open spec fn is_inverse_at(nv: int, mass: Matrix, r: Matrix, b: int, c: int) -> bool {
    algebra::total(nv, |j: int| exact::val(mass.at(b, j)) * exact::val(r.at(j, c))) == algebra::unit(c)(b)
}

/// Whether `mass` times `r` is the unit matrix.
pub open spec fn is_inverse(nv: int, mass: Matrix, r: Matrix) -> bool {
    forall|b: int, c: int| 0 <= b < nv && 0 <= c < nv ==> #[trigger] is_inverse_at(nv, mass, r, b, c)
}

/// The inverse of the mass matrix times a vector: accelerations without gravity at rest.
pub fn compute_minv_times_vec<K: SpatialMath>(k: &K, model: &Model, q: &[Real], tau: &[Real]) -> (r: Vec<Real>)
    requires
        model.wf(),
        q@.len() == model.nq,
        tau@.len() == model.nv,
    ensures
        r@.len() == model.nv,
        forward_dynamics(k, *model, Vector3::zero(), q@, zeros(model.nv as int), tau@, r@),
        forall|mass: Matrix, c: int|
            #![trigger is_mass_matrix(k, *model, q@, mass), tau@[c]]
            is_mass_matrix(k, *model, q@, mass) && 0 <= c < model.nv ==> algebra::total(
                model.nv as int,
                |j: int| exact::val(mass.at(c, j)) * exact::val(r@[j]),
            ) == exact::val(tau@[c]),
{
    let rest = repeat(Real::zero(), model.nv);
    assert(rest@ =~= zeros(model.nv as int));
    let r = aba_under(k, model, Vector3::zero(), q, rest.as_slice(), tau);
    proof {
        assert forall|mass: Matrix, c: int|
            #![trigger is_mass_matrix(k, *model, q@, mass), tau@[c]]
            is_mass_matrix(k, *model, q@, mass) && 0 <= c < model.nv implies algebra::total(
            model.nv as int,
            |j: int| exact::val(mass.at(c, j)) * exact::val(r@[j]),
        ) == exact::val(tau@[c]) by {
            balance::forward_dynamics_inverts_the_mass_matrix(k, *model, q@, tau@, r@, mass, c);
        }
    }
    r
}

/// The inverse of the mass matrix, column by column.
pub fn compute_minv<K: SpatialMath>(k: &K, model: &Model, q: &[Real]) -> (r: Matrix)
    requires
        model.wf(),
        q@.len() == model.nq,
    ensures
        r.sized(model.nv as int, model.nv as int),
        forall|c: int|
            0 <= c < model.nv ==> forward_dynamics(
                k,
                *model,
                Vector3::zero(),
                q@,
                zeros(model.nv as int),
                unit(model.nv as int, c),
                #[trigger] r.column(c),
            ),
        forall|mass: Matrix| #[trigger]
            is_mass_matrix(k, *model, q@, mass) ==> is_inverse(model.nv as int, mass, r),
{
    let nv: usize = model.nv;
    let mut columns: Vec<Vec<Real>> = Vec::new();
    for c in 0..nv
        invariant
            nv == model.nv,
            model.wf(),
            q@.len() == model.nq,
            columns@.len() == c,
            forall|x: int|
                0 <= x < c ==> (#[trigger] columns@[x])@.len() == nv && forward_dynamics(
                    k,
                    *model,
                    Vector3::zero(),
                    q@,
                    zeros(nv as int),
                    unit(nv as int, x),
                    columns@[x]@,
                ),
    {
        let mut e = repeat(Real::zero(), nv);
        e.set(c, Real::one());
        assert(e@ =~= unit(nv as int, c as int));
        columns.push(compute_minv_times_vec(k, model, q, e.as_slice()));
    }
    let r = matrix::from_columns(&columns, nv);
    assert forall|c: int| 0 <= c < nv implies forward_dynamics(
        k,
        *model,
        Vector3::zero(),
        q@,
        zeros(nv as int),
        unit(nv as int, c),
        #[trigger] r.column(c),
    ) by {
        assert(r.column(c) =~= columns@[c]@);
    }
    proof {
        assert forall|mass: Matrix, b: int, c: int|
            #![trigger is_mass_matrix(k, *model, q@, mass), is_inverse_at(nv as int, mass, r, b, c)]
            is_mass_matrix(k, *model, q@, mass) && 0 <= b < nv && 0 <= c < nv implies is_inverse_at(
            nv as int,
            mass,
            r,
            b,
            c,
        ) by {
            let (n, e, x) = (nv as int, unit(nv as int, c), r.column(c));
            balance::forward_dynamics_inverts_the_mass_matrix(k, *model, q@, e, x, mass, b);
            exact::signs_are_of_values(Real::zero());
            algebra::total_same(
                n,
                |j: int| exact::val(mass.at(b, j)) * exact::val(x[j]),
                |j: int| exact::val(mass.at(b, j)) * exact::val(r.at(j, c)),
            );
        }
    }
    r
}

} // verus!
