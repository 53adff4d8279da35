//! Mass times acceleration: what mass matrix, inverse and forward dynamics have to do with each other.

use vstd::prelude::*;
use crate::algebra;
use crate::crba;
use crate::energy;
use crate::exact;
use crate::fk;
use crate::power;
use crate::rigid;
use crate::rnea;
use crate::data::Data;
use crate::matrix::Matrix;
use crate::model::Model;
use crate::number::Real;
use crate::spatial::{Inertia, Motion, Placement, SpatialMath};

verus! {

// ── Velocities ──

/// The velocity that the joints give body `i`, if they move with the velocities `u`.
pub open spec fn velocity(m: Model, x: Seq<Placement>, u: spec_fn(int) -> real, i: int) -> Seq<real>
    decreases i,
{
    if 0 < i && 0 <= m.parent(i) < i {
        algebra::plus(
            algebra::image(rigid::frame(x[i]), velocity(m, x, u, m.parent(i))),
            energy::added(m, u, i),
        )
    } else {
        algebra::nought()
    }
}

/// The velocities of all bodies.
pub open spec fn velocities(m: Model, x: Seq<Placement>, u: spec_fn(int) -> real) -> Seq<Seq<real>> {
    Seq::new(m.joints@.len(), |i: int| velocity(m, x, u, i))
}

/// Bodies with these velocities move as their joints do.
pub proof fn velocities_are_in_motion(m: Model, x: Seq<Placement>, u: spec_fn(int) -> real)
    requires
        m.wf(),
        x.len() == m.joints@.len(),
    ensures
        energy::in_motion(m, x, u, velocities(m, x, u)),
{
    let w = velocities(m, x, u);
    assert forall|i: int| 1 <= i < m.joints@.len() implies #[trigger] w[i] == algebra::plus(
        energy::inherited(m, x, w, i),
        energy::added(m, u, i),
    ) by {
        assert(m.joints@[i].parent < i);
    }
}

/// Velocities of sums are sums of velocities.
proof fn velocity_plus(
    m: Model,
    x: Seq<Placement>,
    u: spec_fn(int) -> real,
    v: spec_fn(int) -> real,
    s: spec_fn(int) -> real,
    i: int,
)
    requires
        forall|c: int| #[trigger] s(c) == u(c) + v(c),
    ensures
        velocity(m, x, s, i) == algebra::plus(velocity(m, x, u, i), velocity(m, x, v, i)),
    decreases i,
{
    if 0 < i && 0 <= m.parent(i) < i {
        let p = m.parent(i);
        velocity_plus(m, x, u, v, s, p);
        algebra::image_plus(rigid::frame(x[i]), velocity(m, x, u, p), velocity(m, x, v, p));
        algebra::blend_plus(
            rigid::nums(m.kind(i).subspace()),
            energy::rates(m, u, i),
            energy::rates(m, v, i),
            energy::rates(m, s, i),
            m.kind(i).nv() as int,
        );
        assert(velocity(m, x, s, i) =~= algebra::plus(velocity(m, x, u, i), velocity(m, x, v, i)));
    } else {
        assert(algebra::nought() =~= algebra::plus(algebra::nought(), algebra::nought()));
    }
}

// ── The mass matrix ──

/// The product of the velocities `u`, the mass matrix and the velocities `v`.
pub open spec fn coupled(nv: int, u: spec_fn(int) -> real, r: Matrix, v: spec_fn(int) -> real) -> real {
    algebra::total2(nv, nv, |a: int, b: int| u(a) * exact::val(r.at(a, b)) * v(b))
}

/// What the motions with the velocities `u` and `v` have in common for body `i`.
pub open spec fn shared(m: Model, x: Seq<Placement>, u: spec_fn(int) -> real, v: spec_fn(int) -> real, i: int) -> real {
    if i <= 0 {
        0real
    } else {
        algebra::pair(velocity(m, x, u, i), algebra::image(rigid::link(m.inertias@[i]), velocity(m, x, v, i)))
    }
}

/// Two velocities of the joints are coupled by the mass matrix as they are by the inertias of all bodies.
pub proof fn mass_matrix_couples_the_bodies<K: SpatialMath>(
    k: &K,
    m: Model,
    q: Seq<Real>,
    x: Seq<Placement>,
    u: spec_fn(int) -> real,
    v: spec_fn(int) -> real,
    r: Matrix,
)
    requires
        m.wf(),
        rigid::exact_arithmetic(k),
        rigid::balanced(m),
        r.sized(m.nv as int, m.nv as int),
        crba::mass_matrix(k, m, q, r),
        crba::all_relative(k, m, q, x),
    ensures
        coupled(m.nv as int, u, r, v) == algebra::total(m.joints@.len() as int, |i: int| shared(m, x, u, v, i)),
{
    let (y, c) = choose|y: Seq<Placement>, c: Seq<Inertia>|
        {
            &&& #[trigger] crba::all_relative(k, m, q, y)
            &&& #[trigger] crba::composite(k, m, y, c)
            &&& crba::filled(k, m, y, c, r, m.joints@.len() as int)
        };
    let n = m.joints@.len() as int;
    let nv = m.nv as int;
    // Only the placement of the world may differ, which plays no part.
    let z = y.update(0, x[0]);
    assert(x =~= z) by {
        assert forall|i: int| 0 <= i < n implies x[i] == z[i] by {
            if i > 0 {
                assert(crate::model::relative(k, m, q, i, x[i]));
                assert(crate::model::relative(k, m, q, i, y[i]));
                rigid::relative_repeats_itself(k, m, q, i, x[i], y[i]);
            }
        }
    }
    let s = |a: int| u(a) + v(a);
    velocities_are_the_same(m, x, y, u);
    velocities_are_the_same(m, x, y, v);
    velocities_are_the_same(m, x, y, s);
    velocities_are_in_motion(m, y, u);
    velocities_are_in_motion(m, y, v);
    velocities_are_in_motion(m, y, s);
    energy::quadratic_is_energy(k, m, y, c, u, velocities(m, y, u), r);
    energy::quadratic_is_energy(k, m, y, c, v, velocities(m, y, v), r);
    energy::quadratic_is_energy(k, m, y, c, s, velocities(m, y, s), r);
    let (eu, ev, es) = (
        |i: int| energy::twice_energy_at(m, velocities(m, y, u), i),
        |i: int| energy::twice_energy_at(m, velocities(m, y, v), i),
        |i: int| energy::twice_energy_at(m, velocities(m, y, s), i),
    );
    let both = |i: int| shared(m, x, u, v, i);
    let double = |i: int| 2real * both(i);
    let rest = |i: int| eu(i) + ev(i);
    assert forall|i: int| 0 <= i < n implies #[trigger] es(i) == rest(i) + double(i) by {
        if i > 0 {
            let w = rigid::link(m.inertias@[i]);
            let (a, b) = (velocity(m, y, u, i), velocity(m, y, v, i));
            velocity_plus(m, y, u, v, s, i);
            rigid::links_are_even(m, i);
            energy::energy_of_a_sum(w, a, b);
            algebra::pair_turns(algebra::image(w, b), a);
            assert(velocities(m, x, u)[i] == velocities(m, y, u)[i]);
            assert(velocities(m, x, v)[i] == velocities(m, y, v)[i]);
        }
    }
    algebra::total_plus(n, eu, ev, rest);
    algebra::total_times(n, 2real, both, double);
    algebra::total_plus(n, rest, double, es);
    // The same of the matrix.
    let (f, g, h) = (
        |a: int, b: int| u(a) * exact::val(r.at(a, b)) * u(b),
        |a: int, b: int| v(a) * exact::val(r.at(a, b)) * v(b),
        |a: int, b: int| s(a) * exact::val(r.at(a, b)) * s(b),
    );
    let (p, o) = (
        |a: int, b: int| u(a) * exact::val(r.at(a, b)) * v(b),
        |a: int, b: int| v(a) * exact::val(r.at(a, b)) * u(b),
    );
    let (fg, po) = (|a: int, b: int| f(a, b) + g(a, b), |a: int, b: int| p(a, b) + o(a, b));
    assert forall|a: int, b: int| 0 <= a < nv && 0 <= b < nv implies #[trigger] h(a, b) == fg(a, b) + po(a, b) by {
        let (ua, ub, va, vb, e) = (u(a), u(b), v(a), v(b), exact::val(r.at(a, b)));
        assert((ua + va) * e * (ub + vb) == ua * e * ub + va * e * vb + (ua * e * vb + va * e * ub))
            by (nonlinear_arith);
    }
    algebra::total2_plus(nv, nv, f, g, fg);
    algebra::total2_plus(nv, nv, p, o, po);
    algebra::total2_plus(nv, nv, fg, po, h);
    crba::mass_matrix_is_symmetric(k, m, q, r);
    algebra::total_swap(nv, nv, p);
    let t = |b: int, a: int| p(a, b);
    assert forall|b: int, a: int| 0 <= b < nv && 0 <= a < nv implies #[trigger] t(b, a) == o(b, a) by {
        assert(r.at(a, b) == r.at(b, a));
        let (ua, vb, e) = (u(a), v(b), exact::val(r.at(a, b)));
        assert(ua * e * vb == vb * e * ua) by (nonlinear_arith);
    }
    algebra::total2_same(nv, nv, t, o);
}

proof fn velocities_are_the_same(m: Model, x: Seq<Placement>, y: Seq<Placement>, u: spec_fn(int) -> real)
    requires
        m.wf(),
        x.len() == m.joints@.len(),
        forall|i: int| 0 < i < x.len() ==> #[trigger] x[i] == y[i],
    ensures
        velocities(m, x, u) == velocities(m, y, u),
{
    assert forall|i: int| 0 <= i < m.joints@.len() implies #[trigger] velocity(m, x, u, i) == velocity(m, y, u, i) by {
        velocity_is_the_same(m, x, y, u, i);
    }
    assert(velocities(m, x, u) =~= velocities(m, y, u));
}

proof fn velocity_is_the_same(m: Model, x: Seq<Placement>, y: Seq<Placement>, u: spec_fn(int) -> real, i: int)
    requires
        forall|i: int| 0 < i < x.len() ==> #[trigger] x[i] == y[i],
        0 <= i < x.len(),
    ensures
        velocity(m, x, u, i) == velocity(m, y, u, i),
    decreases i,
{
    if 0 < i && 0 <= m.parent(i) < i {
        assert(x[i] == y[i]);
        velocity_is_the_same(m, x, y, u, m.parent(i));
    }
}

/// A row of the mass matrix times velocities.
pub open spec fn row_times(nv: int, r: Matrix, c: int, v: spec_fn(int) -> real) -> real {
    algebra::total(nv, |b: int| exact::val(r.at(c, b)) * v(b))
}

/// A unit velocity picks its row of the mass matrix.
pub proof fn unit_picks_a_row(nv: int, r: Matrix, c: int, v: spec_fn(int) -> real)
    requires
        0 <= c < nv,
    ensures
        coupled(nv, algebra::unit(c), r, v) == row_times(nv, r, c, v),
{
    let f = |a: int, b: int| algebra::unit(c)(a) * exact::val(r.at(a, b)) * v(b);
    let rows = |a: int| algebra::total(nv, |b: int| f(a, b));
    assert forall|a: int| 0 <= a < nv && a != c implies #[trigger] rows(a) == 0real by {
        let row = |b: int| f(a, b);
        assert forall|b: int| 0 <= b < nv implies #[trigger] row(b) == 0real by {
            let (e, y) = (exact::val(r.at(a, b)), v(b));
            assert(0real * e * y == 0real) by (nonlinear_arith);
        }
        algebra::total_zero(nv, row);
    }
    algebra::total_single(nv, c, rows);
    let (g, h) = (|b: int| f(c, b), |b: int| exact::val(r.at(c, b)) * v(b));
    assert forall|b: int| 0 <= b < nv implies #[trigger] g(b) == h(b) by {
        let (e, y) = (exact::val(r.at(c, b)), v(b));
        assert(1real * e * y == e * y) by (nonlinear_arith);
    }
    algebra::total_same(nv, g, h);
    assert(rows(c) == algebra::total(nv, g));
    assert(coupled(nv, algebra::unit(c), r, v) == algebra::total(nv, rows));
}

// ── Inverse dynamics ──

proof fn velocities_agree<K: SpatialMath>(
    k: &K,
    m: Model,
    q: Seq<Real>,
    v: Seq<Real>,
    a: Seq<Real>,
    b: Seq<Real>,
    d: Data,
    e: Data,
    s: spec_fn(int) -> real,
    i: int,
)
    requires
        m.wf(),
        rigid::exact_arithmetic(k),
        d.fits(m),
        fk::all_placed(k, m, q, d),
        fk::drives_up_to(k, m, v, a, d, m.joints@.len() as int),
        e.fits(m),
        fk::all_placed(k, m, q, e),
        fk::drives_up_to(k, m, v, b, e, m.joints@.len() as int),
        forall|c: int| rigid::list(a)(c) == rigid::list(b)(c) + #[trigger] s(c),
        0 <= i < m.joints@.len(),
    ensures
        rigid::num(d.v@[i]) == rigid::num(e.v@[i]),
        rigid::num(d.a@[i]) == algebra::plus(rigid::num(e.a@[i]), velocity(m, e.joint_placements@, s, i)),
    decreases i,
{
    let x = e.joint_placements@;
    fk::placing_repeats_itself(k, m, q, d, e);
    if i > 0 {
        let p = m.parent(i);
        assert(m.joints@[i].parent < i);
        velocities_agree(k, m, q, v, a, b, d, e, s, p);
        assert(fk::drives(k, m, v, a, d, i));
        assert(fk::drives(k, m, v, b, e, i));
        power::driving_is_exact(k, m, v, a, d, i);
        power::driving_is_exact(k, m, v, b, e, i);
        algebra::image_plus(rigid::frame(x[i]), rigid::num(e.a@[p]), velocity(m, x, s, p));
        assert forall|c: int| 0 <= c < m.kind(i).nv() implies #[trigger] energy::rates(m, rigid::list(a), i)(c)
            == energy::rates(m, rigid::list(b), i)(c) + energy::rates(m, s, i)(c) by {
            assert(rigid::list(a)(m.v_idx@[i] + c) == rigid::list(b)(m.v_idx@[i] + c) + s(m.v_idx@[i] + c));
        }
        algebra::blend_plus(
            rigid::nums(m.kind(i).subspace()),
            energy::rates(m, rigid::list(b), i),
            energy::rates(m, s, i),
            energy::rates(m, rigid::list(a), i),
            m.kind(i).nv() as int,
        );
        assert(rigid::num(d.a@[i]) =~= algebra::plus(rigid::num(e.a@[i]), velocity(m, x, s, i)));
    } else {
        assert(rigid::num(d.a@[0]) =~= algebra::plus(rigid::num(e.a@[0]), algebra::nought()));
    }
}

/// The torques of two motions that differ in their accelerations alone differ by the mass matrix times the
/// difference of the accelerations.
pub proof fn torques_differ_by_mass_times_acceleration<K: SpatialMath>(
    k: &K,
    m: Model,
    q: Seq<Real>,
    v: Seq<Real>,
    a: Seq<Real>,
    b: Seq<Real>,
    ta: Seq<Real>,
    tb: Seq<Real>,
    r: Matrix,
    c: int,
)
    requires
        m.wf(),
        rigid::exact_arithmetic(k),
        rigid::balanced(m),
        rnea::inverse_dynamics(k, m, q, v, a, ta),
        rnea::inverse_dynamics(k, m, q, v, b, tb),
        r.sized(m.nv as int, m.nv as int),
        crba::mass_matrix(k, m, q, r),
        0 <= c < m.nv,
    ensures
        exact::val(ta[c]) - exact::val(tb[c]) == algebra::total(
            m.nv as int,
            |j: int| exact::val(r.at(c, j)) * (exact::val(a[j]) - exact::val(b[j])),
        ),
{
    let n = m.joints@.len() as int;
    let nv = m.nv as int;
    let (d, hd) = choose|d: Data, hd: Seq<Seq<Motion>>|
        {
            &&& d.fits(m)
            &&& fk::all_placed(k, m, q, d)
            &&& fk::drives_up_to(k, m, v, a, d, m.joints@.len() as int)
            &&& #[trigger] rnea::gathering(k, m, d, hd)
            &&& rnea::torques(k, m, hd, ta)
        };
    let (e, he) = choose|e: Data, he: Seq<Seq<Motion>>|
        {
            &&& e.fits(m)
            &&& fk::all_placed(k, m, q, e)
            &&& fk::drives_up_to(k, m, v, b, e, m.joints@.len() as int)
            &&& #[trigger] rnea::gathering(k, m, e, he)
            &&& rnea::torques(k, m, he, tb)
        };
    fk::placing_repeats_itself(k, m, q, d, e);
    let x = e.joint_placements@;
    let u = algebra::unit(c);
    let w = velocities(m, x, u);
    let s = |j: int| rigid::list(a)(j) - rigid::list(b)(j);
    velocities_are_in_motion(m, x, u);
    power::torques_have_power(k, m, q, v, a, ta, d, u, w);
    power::torques_have_power(k, m, q, v, b, tb, e, u, w);
    unit_picks_a_number(nv, ta, c);
    unit_picks_a_number(nv, tb, c);
    let (fd, fe, both) = (
        |i: int| power::power_at(m, d.v@, d.a@, w, i),
        |i: int| power::power_at(m, e.v@, e.a@, w, i),
        |i: int| shared(m, x, u, s, i),
    );
    assert forall|i: int| 0 <= i < n implies #[trigger] fd(i) == fe(i) + both(i) by {
        if i > 0 {
            velocities_agree(k, m, q, v, a, b, d, e, s, i);
            let l = rigid::link(m.inertias@[i]);
            let added = velocity(m, x, s, i);
            algebra::image_plus(l, rigid::num(e.a@[i]), added);
            let (one, other) = (
                power::force_taken(m, d.v@[i], d.a@[i], i),
                power::force_taken(m, e.v@[i], e.a@[i], i),
            );
            assert(one =~= algebra::plus(other, algebra::image(l, added)));
            algebra::pair_plus(w[i], other, algebra::image(l, added));
        }
    }
    algebra::total_plus(n, fe, both, fd);
    assert(crba::all_relative(k, m, q, x)) by {
        assert forall|i: int| 1 <= i < x.len() implies #[trigger] crate::model::relative(k, m, q, i, x[i]) by {
            assert(fk::placed(k, m, q, x, e.oMi@, i));
        }
    }
    mass_matrix_couples_the_bodies(k, m, q, x, u, s, r);
    unit_picks_a_row(nv, r, c, s);
    algebra::total_same(
        nv,
        |j: int| exact::val(r.at(c, j)) * s(j),
        |j: int| exact::val(r.at(c, j)) * (exact::val(a[j]) - exact::val(b[j])),
    );
}

/// A unit velocity picks a number.
pub proof fn unit_picks_a_number(nv: int, t: Seq<Real>, c: int)
    requires
        0 <= c < nv,
    ensures
        algebra::total(nv, |j: int| algebra::unit(c)(j) * exact::val(t[j])) == exact::val(t[c]),
{
    let f = |j: int| algebra::unit(c)(j) * exact::val(t[j]);
    assert forall|j: int| 0 <= j < nv && j != c implies #[trigger] f(j) == 0real by {
        let y = exact::val(t[j]);
        assert(0real * y == 0real);
    }
    algebra::total_single(nv, c, f);
    let y = exact::val(t[c]);
    assert(1real * y == y);
}

} // verus!
