//! What the centre of mass is, and how it moves.

use vstd::prelude::*;
use crate::algebra;
use crate::analysis;
use crate::centroidal;
use crate::exact;
use crate::fk;
use crate::jacobian;
use crate::reach;
use crate::rigid;
use crate::centroidal::MassMath;
use crate::data::Data;
use crate::model::Model;
use crate::number::{Real, Vector3};
use crate::spatial::{Motion, Placement, SpatialMath};

verus! {

/// The values of a vector of space.
pub open spec fn vec(v: Vector3) -> Seq<real> {
    seq![exact::val(v.x), exact::val(v.y), exact::val(v.z)]
}

/// The point `p` of the frame placed at `x` as seen in the world.
pub open spec fn seen(x: Placement, p: Vector3) -> Seq<real> {
    Seq::new(3, |t: int| algebra::total(3, |s: int| rigid::turn(x, t, s) * vec(p)[s]) + vec(x.translation)[t])
}

/// The numbers that a motion is multiplied by for the `t`-th number of the velocity of the point at `l` from
/// the origin.
pub open spec fn speed_row(l: Seq<real>, t: int) -> Seq<real> {
    Seq::new(
        6,
        |s: int|
            if s < 3 {
                -rigid::skew(l[0], l[1], l[2], t, s)
            } else if s == 3 + t {
                1real
            } else {
                0real
            },
    )
}

/// Whether masses and their positions are computed exactly, or not at all.
pub open spec fn exact_masses<K: SpatialMath + MassMath>(k: &K) -> bool {
    &&& forall|a: Real, b: Real, r: Real| #[trigger]
        call_ensures(K::sum, (k, a, b), r) ==> r.finite() && exact::val(r) == exact::val(a) + exact::val(b)
    &&& forall|x: Placement, p: Vector3, r: Vector3| #[trigger]
        call_ensures(K::world_point, (k, x, p), r) ==> vec(r) == seen(x, p)
    &&& forall|p: Vector3, w: Real, x: Vector3, r: Vector3, t: int|
        #![trigger call_ensures(K::add_weighted, (k, p, w, x), r), vec(r)[t]]
        call_ensures(K::add_weighted, (k, p, w, x), r) && 0 <= t < 3 ==> vec(r)[t] == vec(p)[t] + exact::val(w)
            * vec(x)[t]
    &&& forall|a: Vector3, b: Vector3, r: Vector3, t: int|
        #![trigger call_ensures(K::offset, (k, a, b), r), vec(r)[t]]
        call_ensures(K::offset, (k, a, b), r) && 0 <= t < 3 ==> vec(r)[t] == vec(a)[t] - vec(b)[t]
    &&& forall|p: Vector3, w: Real, r: Vector3, t: int|
        #![trigger call_ensures(K::divide, (k, p, w), r), vec(r)[t]]
        call_ensures(K::divide, (k, p, w), r) && 0 <= t < 3 ==> exact::val(w) * vec(r)[t] == vec(p)[t]
    &&& forall|m: Motion, l: Vector3, r: Vector3, t: int|
        #![trigger call_ensures(K::point_velocity, (k, m, l), r), vec(r)[t]]
        call_ensures(K::point_velocity, (k, m, l), r) && 0 <= t < 3 ==> vec(r)[t] == algebra::pair(
            rigid::num(m),
            speed_row(vec(l), t),
        )
}

/// The mass of link `i`.
pub open spec fn mass(m: Model, i: int) -> real {
    exact::val(m.inertias@[i].mass)
}

/// The mass of all links.
pub open spec fn all_mass(m: Model) -> real {
    algebra::total(m.inertias@.len() as int, |i: int| mass(m, i))
}

/// The total mass is the sum of the masses of all links.
pub proof fn total_mass_is_the_sum<K: SpatialMath + MassMath>(k: &K, m: Model, n: int, r: Real)
    requires
        exact_masses(k),
        centroidal::mass_sum(k, m, n, r),
    ensures
        exact::val(r) == algebra::total(n, |i: int| mass(m, i)),
    decreases n,
{
    exact::signs_are_of_values(Real::zero());
    let f = |i: int| mass(m, i);
    if n > 0 {
        let p = choose|p: Real|
            centroidal::mass_sum(k, m, n - 1, p) && #[trigger] call_ensures(
                K::sum,
                (k, p, m.inertias@[n - 1].mass),
                r,
            );
        total_mass_is_the_sum(k, m, n - 1, p);
        assert(algebra::total(n, f) == algebra::total(n - 1, f) + f(n - 1));
    }
}

proof fn massless_links_have_no_mass(m: Model, i: int)
    requires
        centroidal::massless(m, i),
    ensures
        mass(m, i) == 0real,
{
    exact::signs_are_of_values(Real::zero());
    exact::order_is_of_values(m.inertias@[i].mass, Real::zero());
}

proof fn whole_mass_is_the_sum<K: SpatialMath + MassMath>(k: &K, m: Model, n: int, w: Real)
    requires
        exact_masses(k),
        centroidal::whole_mass(k, m, n, w),
    ensures
        w.finite(),
        exact::val(w) == algebra::total(n, |i: int| mass(m, i)),
    decreases n,
{
    exact::signs_are_of_values(Real::zero());
    let f = |i: int| mass(m, i);
    if n > 0 {
        assert(algebra::total(n, f) == algebra::total(n - 1, f) + f(n - 1));
        if centroidal::massless(m, n - 1) {
            massless_links_have_no_mass(m, n - 1);
            whole_mass_is_the_sum(k, m, n - 1, w);
        } else {
            let p = choose|p: Real|
                centroidal::whole_mass(k, m, n - 1, p) && #[trigger] call_ensures(
                    K::sum,
                    (k, p, m.inertias@[n - 1].mass),
                    w,
                );
            whole_mass_is_the_sum(k, m, n - 1, p);
        }
    }
}

/// Mass times place of the centre of each link.
pub open spec fn moment(m: Model, abs: Seq<Placement>, t: int) -> spec_fn(int) -> real {
    |i: int| mass(m, i) * seen(abs[i], m.inertias@[i].center_of_mass)[t]
}

proof fn zero_has_no_length(t: int)
    requires
        0 <= t < 3,
    ensures
        vec(Vector3::zero())[t] == 0real,
{
    exact::signs_are_of_values(Real::zero());
    assert(Vector3::zero().x == Real::zero());
}

proof fn center_sum_is_the_sum<K: SpatialMath + MassMath>(
    k: &K,
    m: Model,
    abs: Seq<Placement>,
    n: int,
    p: Vector3,
    w: Real,
    t: int,
)
    requires
        exact_masses(k),
        centroidal::center_sum(k, m, abs, n, p, w),
        0 <= t < 3,
    ensures
        w.finite(),
        exact::val(w) == algebra::total(n, |i: int| mass(m, i)),
        vec(p)[t] == algebra::total(n, moment(m, abs, t)),
    decreases n,
{
    exact::signs_are_of_values(Real::zero());
    zero_has_no_length(t);
    let (f, g) = (|i: int| mass(m, i), moment(m, abs, t));
    if n > 0 {
        assert(algebra::total(n, f) == algebra::total(n - 1, f) + f(n - 1));
        assert(algebra::total(n, g) == algebra::total(n - 1, g) + g(n - 1));
        if centroidal::massless(m, n - 1) {
            massless_links_have_no_mass(m, n - 1);
            center_sum_is_the_sum(k, m, abs, n - 1, p, w, t);
            let y = seen(abs[n - 1], m.inertias@[n - 1].center_of_mass)[t];
            assert(0real * y == 0real);
        } else {
            let (p0, w0, c) = choose|p0: Vector3, w0: Real, c: Vector3|
                {
                    &&& centroidal::center_sum(k, m, abs, n - 1, p0, w0)
                    &&& #[trigger] centroidal::link_center(k, m, abs, n - 1, c)
                    &&& #[trigger] call_ensures(K::add_weighted, (k, p0, m.inertias@[n - 1].mass, c), p)
                    &&& #[trigger] call_ensures(K::sum, (k, w0, m.inertias@[n - 1].mass), w)
                };
            center_sum_is_the_sum(k, m, abs, n - 1, p0, w0, t);
            assert(vec(c) == seen(abs[n - 1], m.inertias@[n - 1].center_of_mass));
            assert(vec(p)[t] == vec(p0)[t] + exact::val(m.inertias@[n - 1].mass) * vec(c)[t]);
        }
    }
}

/// The centre of mass is the mean of the centres of all links, each weighted by its mass, whatever joints
/// attach them; the origin where there is no mass.
pub proof fn center_of_mass_is_the_weighted_mean<K: SpatialMath + MassMath>(
    k: &K,
    m: Model,
    q: Seq<Real>,
    r: Vector3,
    d: Data,
    t: int,
)
    requires
        m.wf(),
        rigid::exact_arithmetic(k),
        exact_masses(k),
        centroidal::center_of_mass(k, m, q, r),
        d.fits(m),
        fk::all_placed(k, m, q, d),
        0 <= t < 3,
    ensures
        all_mass(m) > 0real ==> all_mass(m) * vec(r)[t] == algebra::total(
            m.joints@.len() as int,
            |i: int| mass(m, i) * seen(d.oMi@[i], m.inertias@[i].center_of_mass)[t],
        ),
        all_mass(m) <= 0real ==> vec(r)[t] == 0real,
{
    let (e, c, w) = choose|e: Data, c: Vector3, w: Real|
        {
            &&& e.fits(m)
            &&& #[trigger] fk::all_placed(k, m, q, e)
            &&& #[trigger] centroidal::is_center(k, m, e.oMi@, c, w)
            &&& r == if Real::zero().below(w) {
                c
            } else {
                Vector3::zero()
            }
        };
    fk::placing_repeats_itself(k, m, q, d, e);
    let p = choose|p: Vector3|
        {
            &&& #[trigger] centroidal::center_sum(k, m, e.oMi@, m.joints@.len() as int, p, w)
            &&& if Real::zero().below(w) {
                call_ensures(K::divide, (k, p, w), c)
            } else {
                c == p
            }
        };
    let n = m.joints@.len() as int;
    center_sum_is_the_sum(k, m, e.oMi@, n, p, w, t);
    zero_has_no_length(t);
    exact::signs_are_of_values(Real::zero());
    exact::order_is_of_values(Real::zero(), w);
    algebra::total_same(
        n,
        moment(m, e.oMi@, t),
        |i: int| mass(m, i) * seen(d.oMi@[i], m.inertias@[i].center_of_mass)[t],
    );
}

// ── Velocity ──

/// How far the centre of link `i` is from the origin of its joint, as seen in the world.
pub open spec fn lever(m: Model, abs: Seq<Placement>, i: int) -> Seq<real> {
    Seq::new(3, |t: int| seen(abs[i], m.inertias@[i].center_of_mass)[t] - vec(abs[i].translation)[t])
}

/// Mass times the `t`-th number of the velocity of the centre of link `i`, whose joint moves in the world
/// with the motion `v`.
pub open spec fn momentum(m: Model, abs: Seq<Placement>, v: Seq<real>, i: int, t: int) -> real {
    if i <= 0 {
        0real
    } else {
        mass(m, i) * algebra::pair(v, speed_row(lever(m, abs, i), t))
    }
}

spec fn momenta(m: Model, abs: Seq<Placement>, jacs: Seq<Seq<Motion>>, c: int, t: int) -> spec_fn(int) -> real {
    |i: int| momentum(m, abs, rigid::num(jacs[i][c]), i, t)
}

proof fn momentum_sum_is_the_sum<K: SpatialMath + MassMath>(
    k: &K,
    m: Model,
    abs: Seq<Placement>,
    jacs: Seq<Seq<Motion>>,
    c: int,
    n: int,
    p: Vector3,
    t: int,
)
    requires
        exact_masses(k),
        centroidal::momentum_sum(k, m, abs, jacs, c, n, p),
        0 <= t < 3,
    ensures
        vec(p)[t] == algebra::total(n, momenta(m, abs, jacs, c, t)),
    decreases n,
{
    zero_has_no_length(t);
    let g = momenta(m, abs, jacs, c, t);
    if n > 0 {
        assert(algebra::total(n, g) == algebra::total(n - 1, g) + g(n - 1));
        let i = n - 1;
        if !centroidal::counts(m, i) {
            momentum_sum_is_the_sum(k, m, abs, jacs, c, n - 1, p, t);
            if i > 0 {
                massless_links_have_no_mass(m, i);
                let y = algebra::pair(rigid::num(jacs[i][c]), speed_row(lever(m, abs, i), t));
                assert(0real * y == 0real);
            }
        } else {
            let (p0, o, v) = choose|p0: Vector3, o: Vector3, v: Vector3|
                {
                    &&& centroidal::momentum_sum(k, m, abs, jacs, c, n - 1, p0)
                    &&& centroidal::link_center(k, m, abs, n - 1, o)
                    &&& #[trigger] centroidal::center_velocity(k, m, abs, n - 1, jacs[n - 1][c], o, v)
                    &&& #[trigger] call_ensures(K::add_weighted, (k, p0, m.inertias@[n - 1].mass, v), p)
                };
            momentum_sum_is_the_sum(k, m, abs, jacs, c, n - 1, p0, t);
            let l = choose|l: Vector3| #[trigger]
                call_ensures(K::offset, (k, o, abs[i].translation), l) && call_ensures(
                    K::point_velocity,
                    (k, jacs[i][c], l),
                    v,
                );
            assert(vec(o) == seen(abs[i], m.inertias@[i].center_of_mass));
            assert forall|s: int| 0 <= s < 3 implies #[trigger] vec(l)[s] == lever(m, abs, i)[s] by {}
            assert(vec(l) =~= lever(m, abs, i));
            assert(vec(p)[t] == vec(p0)[t] + exact::val(m.inertias@[i].mass) * vec(v)[t]);
        }
    }
}

proof fn weighted_sum_is_the_sum<K: SpatialMath + MassMath>(k: &K, s: Seq<Vector3>, x: Seq<Real>, n: int, r: Vector3, t: int)
    requires
        exact_masses(k),
        centroidal::weighted_sum(k, s, x, n, r),
        0 <= t < 3,
    ensures
        vec(r)[t] == algebra::total(n, |c: int| exact::val(x[c]) * vec(s[c])[t]),
    decreases n,
{
    zero_has_no_length(t);
    let f = |c: int| exact::val(x[c]) * vec(s[c])[t];
    if n > 0 {
        let p = choose|p: Vector3|
            centroidal::weighted_sum(k, s, x, n - 1, p) && #[trigger] call_ensures(
                K::add_weighted,
                (k, p, x[n - 1], s[n - 1]),
                r,
            );
        weighted_sum_is_the_sum(k, s, x, n - 1, p, t);
        assert(algebra::total(n, f) == algebra::total(n - 1, f) + f(n - 1));
        assert(vec(r)[t] == vec(p)[t] + exact::val(x[n - 1]) * vec(s[n - 1])[t]);
    }
}

/// The mass times the velocity of the centre of mass is the sum of the masses times the velocities of the
/// centres of all links: those of the bodies, which move as `d` says.
pub proof fn center_of_mass_moves_with_the_links<K: SpatialMath + MassMath>(
    k: &K,
    m: Model,
    q: Seq<Real>,
    v: Seq<Real>,
    jac: Seq<Vector3>,
    r: Vector3,
    d: Data,
    t: int,
)
    requires
        m.wf(),
        rigid::exact_arithmetic(k),
        exact_masses(k),
        reach::exact_columns(k),
        reach::rigid_placements(k),
        centroidal::com_jacobian(k, m, q, jac),
        centroidal::weighted_sum(k, jac, v, m.nv as int, r),
        d.fits(m),
        fk::all_placed(k, m, q, d),
        fk::moves_up_to(k, m, v, d, m.joints@.len() as int),
        0 <= t < 3,
        all_mass(m) > 0real,
    ensures
        all_mass(m) * vec(r)[t] == algebra::total(
            m.joints@.len() as int,
            |i: int|
                momentum(
                    m,
                    d.oMi@,
                    algebra::image(reach::sight(d.oMi@[i], d.oMi@[i].translation), rigid::num(d.v@[i])),
                    i,
                    t,
                ),
        ),
{
    let n = m.joints@.len() as int;
    let nv = m.nv as int;
    let (e, jacs, w) = choose|e: Data, jacs: Seq<Seq<Motion>>, w: Real|
        {
            &&& e.fits(m)
            &&& #[trigger] fk::all_placed(k, m, q, e)
            &&& #[trigger] centroidal::link_jacobians(k, m, e.oMi@, jacs)
            &&& #[trigger] centroidal::whole_mass(k, m, m.joints@.len() as int, w)
            &&& jac.len() == m.nv
            &&& forall|c: int|
                0 <= c < m.nv ==> centroidal::mean_velocity(k, m, e.oMi@, jacs, c, w, #[trigger] jac[c])
        };
    fk::placing_repeats_itself(k, m, q, d, e);
    let abs = d.oMi@;
    whole_mass_is_the_sum(k, m, n, w);
    exact::signs_are_of_values(Real::zero());
    exact::order_is_of_values(Real::zero(), w);
    weighted_sum_is_the_sum(k, jac, v, nv, r, t);
    let plain = |c: int| exact::val(v[c]) * vec(jac[c])[t];
    let f = |c: int, i: int| exact::val(v[c]) * momenta(m, abs, jacs, c, t)(i);
    let scaled = |c: int| algebra::total(n, |i: int| f(c, i));
    assert forall|c: int| 0 <= c < nv implies #[trigger] scaled(c) == all_mass(m) * plain(c) by {
        assert(centroidal::mean_velocity(k, m, e.oMi@, jacs, c, w, jac[c]));
        let p = choose|p: Vector3|
            {
                &&& #[trigger] centroidal::momentum_sum(k, m, e.oMi@, jacs, c, m.joints@.len() as int, p)
                &&& if Real::zero().below(w) {
                    call_ensures(K::divide, (k, p, w), jac[c])
                } else {
                    jac[c] == p
                }
            };
        momentum_sum_is_the_sum(k, m, abs, jacs, c, n, p, t);
        algebra::total_times(n, exact::val(v[c]), momenta(m, abs, jacs, c, t), |i: int| f(c, i));
        let (a, b, z) = (all_mass(m), exact::val(v[c]), vec(jac[c])[t]);
        assert(a * z == vec(p)[t]);
        assert(b * (a * z) == a * (b * z)) by (nonlinear_arith);
    }
    algebra::total_times(nv, all_mass(m), plain, scaled);
    algebra::total_swap(nv, n, f);
    let g = |i: int, c: int| f(c, i);
    let columns = |i: int| algebra::total(nv, |c: int| g(i, c));
    let links = |i: int|
        momentum(
            m,
            d.oMi@,
            algebra::image(reach::sight(d.oMi@[i], d.oMi@[i].translation), rigid::num(d.v@[i])),
            i,
            t,
        );
    assert forall|i: int| 0 <= i < n implies #[trigger] columns(i) == links(i) by {
        let column = |c: int| g(i, c);
        if i <= 0 {
            assert forall|c: int| 0 <= c < nv implies #[trigger] column(c) == 0real by {
                let y = exact::val(v[c]);
                assert(y * 0real == 0real);
            }
            algebra::total_zero(nv, column);
        } else if centroidal::massless(m, i) {
            massless_links_have_no_mass(m, i);
            assert forall|c: int| 0 <= c < nv implies #[trigger] column(c) == 0real by {
                let (y, z) = (
                    exact::val(v[c]),
                    algebra::pair(rigid::num(jacs[i][c]), speed_row(lever(m, abs, i), t)),
                );
                assert(0real * z == 0real);
                assert(y * 0real == 0real);
            }
            algebra::total_zero(nv, column);
            let z = algebra::pair(
                algebra::image(reach::sight(d.oMi@[i], d.oMi@[i].translation), rigid::num(d.v@[i])),
                speed_row(lever(m, abs, i), t),
            );
            assert(0real * z == 0real);
        } else {
            assert(centroidal::counts(m, i));
            let row = speed_row(lever(m, abs, i), t);
            let none = Seq::<usize>::empty();
            assert(jacobian::is_jacobian(k, m, abs, abs[i].translation, i, none, jacs[i]));
            reach::jacobian_gives_the_velocity(k, m, q, v, d, abs[i].translation, i, none, jacs[i]);
            let u = |c: int| exact::val(v[c]);
            let s = rigid::nums(jacs[i]);
            algebra::blend_pairs(s, u, nv, row);
            let each = |c: int| u(c) * algebra::pair(s[c], row);
            assert forall|c: int| 0 <= c < nv implies #[trigger] column(c) == mass(m, i) * each(c) by {
                let (y, a, z) = (u(c), mass(m, i), algebra::pair(s[c], row));
                assert(s[c] == rigid::num(jacs[i][c]));
                assert(y * (a * z) == a * (y * z)) by (nonlinear_arith);
            }
            algebra::total_times(nv, mass(m, i), each, column);
        }
    }
    algebra::total_same(n, columns, links);
    assert(algebra::total2(nv, n, f) == algebra::total(nv, scaled));
    assert(algebra::total2(n, nv, g) == algebra::total(n, columns));
}

// ── Payloads ──

/// The torques that a unit of mass at a joint adds have the power that its weight takes when the joint moves:
/// against gravity, times the velocity of the joint's origin.
pub proof fn payload_torques_lift_the_mass<K: SpatialMath>(
    k: &K,
    m: Model,
    q: Seq<Real>,
    v: Seq<Real>,
    d: Data,
    joint: int,
    tau: Seq<Real>,
)
    requires
        m.wf(),
        rigid::exact_arithmetic(k),
        reach::exact_columns(k),
        reach::rigid_placements(k),
        forall|a: Vector3, b: Vector3, r: Real| #[trigger]
            call_ensures(K::dot3, (k, a, b), r) ==> exact::val(r) == vec(a)[0] * vec(b)[0] + vec(a)[1] * vec(b)[1]
                + vec(a)[2] * vec(b)[2],
        d.fits(m),
        fk::all_placed(k, m, q, d),
        fk::moves_up_to(k, m, v, d, m.joints@.len() as int),
        0 < joint < m.joints@.len(),
        analysis::torques_of_mass(k, m, q, joint, tau),
    ensures
        ({
            let motion = algebra::image(
                reach::sight(d.oMi@[joint], d.oMi@[joint].translation),
                rigid::num(d.v@[joint]),
            );
            let g = vec(m.gravity);
            algebra::total(m.nv as int, |c: int| exact::val(v[c]) * exact::val(tau[c])) == -(motion[3] * g[0]
                + motion[4] * g[1] + motion[5] * g[2])
        }),
{
    let jac = choose|jac: Seq<Motion>|
        {
            &&& #[trigger] jacobian::joint_jacobian(k, m, q, joint, Seq::empty(), jac)
            &&& forall|c: int| 0 <= c < m.nv ==> analysis::torque_of_mass(k, m, jac[c], #[trigger] tau[c])
        };
    reach::joint_jacobian_gives_the_velocity(k, m, q, v, d, joint, Seq::empty(), jac);
    let nv = m.nv as int;
    let u = |c: int| exact::val(v[c]);
    let s = rigid::nums(jac);
    let g = vec(m.gravity);
    let against = seq![0real, 0real, 0real, -g[0], -g[1], -g[2]];
    algebra::blend_pairs(s, u, nv, against);
    let (f, h) = (|c: int| exact::val(v[c]) * exact::val(tau[c]), |c: int| u(c) * algebra::pair(s[c], against));
    assert forall|c: int| 0 <= c < nv implies #[trigger] f(c) == h(c) by {
        assert(analysis::torque_of_mass(k, m, jac[c], tau[c]));
        let x = choose|x: Real| #[trigger]
            call_ensures(K::dot3, (k, jac[c].linear, m.gravity), x) && tau[c] == x.negated();
        exact::signs_are_of_values(x);
        lifting_is_exact(rigid::num(jac[c]), g);
        assert(s[c] == rigid::num(jac[c]));
    }
    algebra::total_same(nv, f, h);
    lifting_is_exact(algebra::blend(s, u, nv), g);
}

proof fn lifting_is_exact(a: Seq<real>, g: Seq<real>)
    ensures
        algebra::pair(a, seq![0real, 0real, 0real, -g[0], -g[1], -g[2]]) == -(a[3] * g[0] + a[4] * g[1] + a[5] * g[2]),
{
    let b = seq![0real, 0real, 0real, -g[0], -g[1], -g[2]];
    let f = |t: int| a[t] * b[t];
    reveal_with_fuel(algebra::total, 7);
    assert(algebra::total(6, f) == f(0) + f(1) + f(2) + f(3) + f(4) + f(5));
    let (x, y, z, p, q, r) = (a[3], a[4], a[5], g[0], g[1], g[2]);
    let (i, j, l) = (a[0], a[1], a[2]);
    assert(i * 0real == 0real && j * 0real == 0real && l * 0real == 0real);
    assert(x * -p + y * -q + z * -r == -(x * p + y * q + z * r)) by (nonlinear_arith);
}

} // verus!
