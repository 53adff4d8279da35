//! What inverse dynamics is for: the torques do the work of the forces on the bodies.

use vstd::prelude::*;
use crate::algebra;
use crate::crba;
use crate::energy;
use crate::exact;
use crate::fk;
use crate::jacobian;
use crate::joint;
use crate::model;
use crate::rigid;
use crate::rnea;
use crate::spatial;
use crate::data::Data;
use crate::model::Model;
use crate::number::Real;
use crate::spatial::{Inertia, Motion, Placement, SpatialMath};

verus! {

/// The force that body `i` takes to accelerate by `a` while it moves with velocity `v`: the rate of its
/// momentum.
pub open spec fn force_taken(m: Model, v: Motion, a: Motion, i: int) -> Seq<real> {
    let w = rigid::link(m.inertias@[i]);
    algebra::plus(
        algebra::image(w, rigid::num(a)),
        algebra::times(
            -1real,
            algebra::image(algebra::flip(rigid::crossing(rigid::num(v))), algebra::image(w, rigid::num(v))),
        ),
    )
}

/// The power of the force that body `i` takes, if the body moves with the velocity `w`.
pub open spec fn power_taken(m: Model, v: Seq<Motion>, a: Seq<Motion>, w: Seq<Motion>, i: int) -> real {
    if i <= 0 {
        0real
    } else {
        algebra::pair(rigid::num(w[i]), force_taken(m, v[i], a[i], i))
    }
}

/// The motion of a body, in values.
pub proof fn driving_is_exact<K: SpatialMath>(k: &K, m: Model, v: Seq<Real>, a: Seq<Real>, d: Data, i: int)
    requires
        rigid::exact_arithmetic(k),
        fk::drives(k, m, v, a, d, i),
    ensures
        rigid::num(d.v@[i]) == algebra::plus(
            algebra::image(rigid::frame(d.joint_placements@[i]), rigid::num(d.v@[m.parent(i)])),
            energy::added(m, rigid::list(v), i),
        ),
        rigid::num(d.a@[i]) == algebra::plus(
            algebra::plus(
                algebra::image(rigid::frame(d.joint_placements@[i]), rigid::num(d.a@[m.parent(i)])),
                energy::added(m, rigid::list(a), i),
            ),
            algebra::image(rigid::crossing(rigid::num(d.v@[i])), energy::added(m, rigid::list(v), i)),
        ),
{
    let p = m.parent(i);
    let x = d.joint_placements@[i];
    joint::subspace_has_nv_columns(m.kind(i));
    let own = choose|own: Motion|
        {
            &&& #[trigger] fk::moving(k, m, v, x, d.v@[p], i, own, d.v@[i])
            &&& fk::accelerating(k, m, a, x, d.a@[p], d.v@[i], own, i, d.a@[i])
        };
    energy::combination_is_added(k, m, v, i, own);
    let (added, sum, turn) = choose|added: Motion, sum: Motion, turn: Motion|
        {
            &&& spatial::combination(k, m.kind(i).subspace(), a, m.v_idx@[i] as int, m.kind(i).nv() as int, added)
            &&& #[trigger] fk::carried(k, x, d.a@[p], added, sum)
            &&& #[trigger] call_ensures(K::motion_cross, (k, d.v@[i], own), turn)
            &&& call_ensures(K::motion_sum, (k, sum, turn), d.a@[i])
        };
    energy::combination_is_added(k, m, a, i, added);
}

/// The motion of the bodies is the same each time.
pub proof fn motions_agree<K: SpatialMath>(
    k: &K,
    m: Model,
    q: Seq<Real>,
    v: Seq<Real>,
    a: Seq<Real>,
    d: Data,
    e: Data,
    i: int,
)
    requires
        m.wf(),
        rigid::exact_arithmetic(k),
        d.fits(m),
        fk::all_placed(k, m, q, d),
        fk::drives_up_to(k, m, v, a, d, m.joints@.len() as int),
        e.fits(m),
        fk::all_placed(k, m, q, e),
        fk::drives_up_to(k, m, v, a, e, m.joints@.len() as int),
        0 <= i < m.joints@.len(),
    ensures
        d.joint_placements@ == e.joint_placements@,
        rigid::num(d.v@[i]) == rigid::num(e.v@[i]),
        rigid::num(d.a@[i]) == rigid::num(e.a@[i]),
    decreases i,
{
    fk::placing_repeats_itself(k, m, q, d, e);
    if i > 0 {
        assert(m.joints@[i].parent < i);
        motions_agree(k, m, q, v, a, d, e, m.parent(i));
        assert(fk::drives(k, m, v, a, d, i));
        assert(fk::drives(k, m, v, a, e, i));
        driving_is_exact(k, m, v, a, d, i);
        driving_is_exact(k, m, v, a, e, i);
    }
}

/// The powers of forces on bodies.
spec fn powers(w: Seq<Seq<real>>, f: Seq<Motion>) -> spec_fn(int) -> real {
    |i: int|
        if i <= 0 {
            0real
        } else {
            algebra::pair(w[i], rigid::num(f[i]))
        }
}

/// The power that joint `i` gives to the force `f`.
spec fn given(m: Model, v: spec_fn(int) -> real, f: Motion, i: int) -> real {
    algebra::pair(energy::added(m, v, i), rigid::num(f))
}

/// Adding the force on body `i` to that on its parent takes from the powers what its joint gives.
proof fn gathering_takes_the_power<K: SpatialMath>(
    k: &K,
    m: Model,
    x: Seq<Placement>,
    v: spec_fn(int) -> real,
    w: Seq<Seq<real>>,
    i: int,
    s: Seq<Motion>,
    t: Seq<Motion>,
)
    requires
        m.wf(),
        rigid::exact_arithmetic(k),
        energy::in_motion(m, x, v, w),
        1 <= i < m.joints@.len(),
        s.len() == m.joints@.len(),
        rnea::gathered(k, m, x, i, s, t),
    ensures
        t.len() == s.len(),
        algebra::total(i + 1, powers(w, s)) == algebra::total(i, powers(w, t)) + given(m, v, s[i], i),
{
    let p = m.parent(i);
    assert(m.joints@[i].parent < i);
    let (f, g) = (powers(w, s), powers(w, t));
    let z = energy::inherited(m, x, w, i);
    let force = rigid::num(s[i]);
    assert(w[i] == algebra::plus(z, energy::added(m, v, i)));
    algebra::pair_plus(force, z, energy::added(m, v, i));
    assert(algebra::total(i + 1, f) == algebra::total(i, f) + f(i));
    if p > 0 {
        let h = choose|h: Motion| #[trigger]
            call_ensures(K::force_to_parent, (k, x[i], s[i]), h) && call_ensures(K::motion_sum, (k, s[p], h), t[p]);
        let above = w[p];
        let back = algebra::image(algebra::flip(rigid::frame(x[i])), force);
        algebra::pair_plus(above, rigid::num(s[p]), back);
        algebra::image_flips(rigid::frame(x[i]), force, above);
        algebra::pair_turns(force, z);
        algebra::pair_turns(back, above);
        assert(g(p) == f(p) + algebra::pair(z, force));
        assert forall|j: int| 0 <= j < i && j != p implies #[trigger] f(j) == g(j) by {
            assert(t[j] == s[j]);
        }
        algebra::total_change(i, p, f, g);
    } else {
        assert(p == 0);
        algebra::image_nought(rigid::frame(x[i]));
        assert(z == algebra::nought());
        algebra::pair_nought(force);
        algebra::total_same(i, f, g);
    }
}

proof fn powers_are_given<K: SpatialMath>(
    k: &K,
    m: Model,
    d: Data,
    v: spec_fn(int) -> real,
    w: Seq<Seq<real>>,
    history: Seq<Seq<Motion>>,
    i: int,
)
    requires
        m.wf(),
        rigid::exact_arithmetic(k),
        energy::in_motion(m, d.joint_placements@, v, w),
        rnea::gathering(k, m, d, history),
        0 <= i < m.joints@.len(),
        history[i].len() == m.joints@.len(),
    ensures
        algebra::total(i + 1, powers(w, history[i])) == algebra::total(
            i + 1,
            |j: int| if j <= 0 { 0real } else { given(m, v, history[j][j], j) },
        ),
    decreases i,
{
    let f = powers(w, history[i]);
    let g = |j: int| if j <= 0 { 0real } else { given(m, v, history[j][j], j) };
    if i > 0 {
        assert(rnea::gathered(k, m, d.joint_placements@, i, history[i], history[i - 1]));
        gathering_takes_the_power(k, m, d.joint_placements@, v, w, i, history[i], history[i - 1]);
        powers_are_given(k, m, d, v, w, history, i - 1);
        assert(algebra::total(i + 1, g) == algebra::total(i, g) + g(i));
    } else {
        assert(algebra::total(1, f) == algebra::total(0, f) + f(0));
        assert(algebra::total(1, g) == algebra::total(0, g) + g(0));
    }
}

proof fn force_is_taken<K: SpatialMath>(k: &K, m: Model, d: Data, i: int, f: Motion)
    requires
        rigid::exact_arithmetic(k),
        rnea::body_force(k, m, d, i, f),
    ensures
        rigid::num(f) == force_taken(m, d.v@[i], d.a@[i], i),
{
    let (inertia, push, momentum, turn) = choose|inertia: Inertia, push: Motion, momentum: Motion, turn: Motion|
        {
            &&& call_ensures(K::body_inertia, (k, m.inertias@[i]), inertia)
            &&& #[trigger] call_ensures(K::inertia_times, (k, inertia, d.a@[i]), push)
            &&& #[trigger] call_ensures(K::inertia_times, (k, inertia, d.v@[i]), momentum)
            &&& #[trigger] call_ensures(K::force_cross, (k, d.v@[i], momentum), turn)
            &&& call_ensures(K::motion_sum, (k, push, turn), f)
        };
    let w = rigid::link(m.inertias@[i]);
    assert(algebra::image(rigid::mat(inertia), rigid::num(d.a@[i])) == algebra::image(w, rigid::num(d.a@[i])));
    assert(algebra::image(rigid::mat(inertia), rigid::num(d.v@[i])) == algebra::image(w, rigid::num(d.v@[i])));
}

/// The power of a force on body `i` that moves with the values `w`.
pub open spec fn power_at(m: Model, v: Seq<Motion>, a: Seq<Motion>, w: Seq<Seq<real>>, i: int) -> real {
    if i <= 0 {
        0real
    } else {
        algebra::pair(w[i], force_taken(m, v[i], a[i], i))
    }
}

/// The power of the torques that a motion takes is that of the forces on all bodies, for bodies that move
/// with the velocities `u`.
pub proof fn torques_have_power<K: SpatialMath>(
    k: &K,
    m: Model,
    q: Seq<Real>,
    v: Seq<Real>,
    a: Seq<Real>,
    tau: Seq<Real>,
    e: Data,
    u: spec_fn(int) -> real,
    w: Seq<Seq<real>>,
)
    requires
        m.wf(),
        rigid::exact_arithmetic(k),
        rnea::inverse_dynamics(k, m, q, v, a, tau),
        e.fits(m),
        fk::all_placed(k, m, q, e),
        fk::drives_up_to(k, m, v, a, e, m.joints@.len() as int),
        energy::in_motion(m, e.joint_placements@, u, w),
    ensures
        algebra::total(m.nv as int, |c: int| u(c) * exact::val(tau[c])) == algebra::total(
            m.joints@.len() as int,
            |i: int| power_at(m, e.v@, e.a@, w, i),
        ),
{
    let n = m.joints@.len() as int;
    let (b, history) = choose|b: Data, history: Seq<Seq<Motion>>|
        {
            &&& b.fits(m)
            &&& fk::all_placed(k, m, q, b)
            &&& fk::drives_up_to(k, m, v, a, b, m.joints@.len() as int)
            &&& #[trigger] rnea::gathering(k, m, b, history)
            &&& rnea::torques(k, m, history, tau)
        };
    let x = b.joint_placements@;
    motions_agree(k, m, q, v, a, b, e, 0);
    powers_are_given(k, m, b, u, w, history, n - 1);
    let (f, g) = (powers(w, history[n - 1]), |i: int| power_at(m, e.v@, e.a@, w, i));
    assert forall|i: int| 0 <= i < n implies #[trigger] f(i) == g(i) by {
        if i > 0 {
            assert(rnea::body_force(k, m, b, i, history[n - 1][i]));
            force_is_taken(k, m, b, i, history[n - 1][i]);
            motions_agree(k, m, q, v, a, b, e, i);
        }
    }
    algebra::total_same(n, f, g);
    let work = |c: int| u(c) * exact::val(tau[c]);
    energy::total_by_joints(m, n, work);
    let by_joint = |i: int| algebra::total(m.kind(i).nv() as int, |t: int| work(m.v_idx@[i] + t));
    let gives = |j: int| if j <= 0 { 0real } else { given(m, u, history[j][j], j) };
    assert forall|i: int| 0 <= i < n implies #[trigger] by_joint(i) == gives(i) by {
        if i == 0 {
            assert(m.kind(0) == joint::JointType::Fixed);
        } else {
            let nv = m.kind(i).nv() as int;
            let s = rigid::nums(m.kind(i).subspace());
            joint::subspace_has_nv_columns(m.kind(i));
            let force = rigid::num(history[i][i]);
            algebra::blend_pairs(s, energy::rates(m, u, i), nv, force);
            let (y, z) = (
                |t: int| work(m.v_idx@[i] + t),
                |t: int| energy::rates(m, u, i)(t) * algebra::pair(s[t], force),
            );
            assert forall|t: int| 0 <= t < nv implies #[trigger] y(t) == z(t) by {
                let c = m.v_idx@[i] + t;
                assert(jacobian::owns(m, i, c));
                assert(call_ensures(K::dot, (k, crba::direction(m, i, c), history[i][i]), tau[c]));
                assert(s[t] == rigid::num(crba::direction(m, i, c)));
            }
            algebra::total_same(nv, y, z);
        }
    }
    algebra::total_same(n, by_joint, gives);
}

/// The power of the torques that a motion takes is that of the forces on all bodies, whatever joints attach
/// them and whatever velocities the power is taken for: each body takes the rate of its momentum, where
/// accelerations count from free fall.  The motion is given by `e`, the velocities that the power is taken
/// for by `u`, and those of the bodies by `d`.
pub proof fn torques_have_the_power_of_the_forces<K: SpatialMath>(
    k: &K,
    m: Model,
    q: Seq<Real>,
    v: Seq<Real>,
    a: Seq<Real>,
    tau: Seq<Real>,
    e: Data,
    u: Seq<Real>,
    d: Data,
)
    requires
        m.wf(),
        rigid::exact_arithmetic(k),
        rnea::inverse_dynamics(k, m, q, v, a, tau),
        e.fits(m),
        fk::all_placed(k, m, q, e),
        fk::drives_up_to(k, m, v, a, e, m.joints@.len() as int),
        d.fits(m),
        fk::all_placed(k, m, q, d),
        fk::moves_up_to(k, m, u, d, m.joints@.len() as int),
    ensures
        algebra::total(m.nv as int, |c: int| exact::val(u[c]) * exact::val(tau[c])) == algebra::total(
            m.joints@.len() as int,
            |i: int| power_taken(m, e.v@, e.a@, d.v@, i),
        ),
{
    let x = e.joint_placements@;
    assert(crba::all_relative(k, m, q, x)) by {
        assert forall|i: int| 1 <= i < x.len() implies #[trigger] model::relative(k, m, q, i, x[i]) by {
            assert(fk::placed(k, m, q, x, e.oMi@, i));
        }
    }
    let w = rigid::nums(d.v@);
    energy::bodies_are_in_motion(k, m, q, u, d, x);
    torques_have_power(k, m, q, v, a, tau, e, rigid::list(u), w);
    algebra::total_same(
        m.nv as int,
        |c: int| rigid::list(u)(c) * exact::val(tau[c]),
        |c: int| exact::val(u[c]) * exact::val(tau[c]),
    );
    algebra::total_same(
        m.joints@.len() as int,
        |i: int| power_at(m, e.v@, e.a@, w, i),
        |i: int| power_taken(m, e.v@, e.a@, d.v@, i),
    );
}

} // verus!
