//! Static loads: what gravity and a payload take of the joints' torque limits.

use vstd::prelude::*;
use crate::aba;
use crate::exact;
use crate::jacobian;
use crate::rnea;
use crate::jacobian::compute_joint_jacobian;
use crate::limits::JointLimits;
use crate::model::Model;
use crate::number::Real;
use crate::rnea::compute_gravity;
use crate::spatial::{Motion, SpatialMath};

verus! {

/// Torques below this are no load: 1e-12.
pub const NEGLIGIBLE: u64 = 0x3d719799812dea11;

/// Static load of gravity on a joint with one degree of freedom.
#[derive(Clone, Copy, Debug)]
pub struct GravityLoad {
    /// Number of the joint.
    pub joint_idx: usize,
    /// Place of the joint in the velocity.
    pub v_idx: usize,
    /// Torque or force that holds the pose.
    pub gravity_torque: Real,
    /// Torque limit.
    pub tau_max: Real,
    /// What is left of the limit; negative if the joint is overloaded.
    pub torque_margin: Real,
}

/// Largest payload at a joint.
#[derive(Clone, Debug)]
pub struct PayloadCapacity {
    /// Mass that can be held.
    pub max_mass_kg: Real,
    /// Number of the joint that gives way first.
    pub limiting_joint: usize,
    /// Torque that each unit of mass adds, for each number of the velocity.
    pub tau_per_kg: Vec<Real>,
}

/// Whether `l` is the load on joint `i`, which `g` holds against gravity.
pub open spec fn is_load<K: SpatialMath>(k: &K, m: Model, g: Seq<Real>, lim: JointLimits, i: int, l: GravityLoad) -> bool {
    &&& l.joint_idx == i
    &&& l.v_idx == m.v_idx@[i]
    &&& l.gravity_torque == g[l.v_idx as int]
    &&& l.tau_max == lim.tau_max@[l.v_idx as int]
    &&& call_ensures(K::difference, (k, l.tau_max, l.gravity_torque.unsigned()), l.torque_margin)
}

/// Whether `loads` are the loads on those of the first `n` joints that have one degree of
/// freedom, in order.
pub open spec fn are_loads<K: SpatialMath>(
    k: &K,
    m: Model,
    g: Seq<Real>,
    lim: JointLimits,
    n: int,
    loads: Seq<GravityLoad>,
) -> bool
    decreases n,
{
    if n <= 1 {
        loads.len() == 0
    } else if m.kind(n - 1).nv() == 1 {
        &&& loads.len() > 0
        &&& is_load(k, m, g, lim, n - 1, loads.last())
        &&& are_loads(k, m, g, lim, n - 1, loads.drop_last())
    } else {
        are_loads(k, m, g, lim, n - 1, loads)
    }
}

/// Whether `loads` are the static loads of a configuration.
pub open spec fn static_loads<K: SpatialMath>(
    k: &K,
    m: Model,
    q: Seq<Real>,
    lim: JointLimits,
    loads: Seq<GravityLoad>,
) -> bool {
    exists|g: Seq<Real>|
        {
            &&& #[trigger] rnea::inverse_dynamics(k, m, q, aba::zeros(m.nv as int), aba::zeros(m.nv as int), g)
            &&& are_loads(k, m, g, lim, m.joints@.len() as int, loads)
        }
}

/// Loads of gravity on the joints with one degree of freedom.
pub fn gravity_loads<K: SpatialMath>(k: &K, model: &Model, q: &[Real], limits: &JointLimits) -> (r: Vec<
    GravityLoad,
>)
    requires
        model.wf(),
        q@.len() == model.nq,
        limits.fits(*model),
    ensures
        static_loads(k, *model, q@, *limits, r@),
        forall|i: int| 0 <= i < r@.len() ==> (#[trigger] r@[i]).v_idx < model.nv,
{
    let g = compute_gravity(k, model, q);
    let mut r: Vec<GravityLoad> = Vec::new();
    let n: usize = model.joints.len();
    for i in 1..n
        invariant
            n == model.joints@.len(),
            model.wf(),
            g@.len() == model.nv,
            limits.fits(*model),
            are_loads(k, *model, g@, *limits, i as int, r@),
            forall|j: int| 0 <= j < r@.len() ==> (#[trigger] r@[j]).v_idx < model.nv,
    {
        proof {
            model.ranges(i as int);
        }
        let ghost before = r@;
        if model.joints[i].joint_type.nv() == 1 {
            let v_idx: usize = model.v_idx[i];
            let gravity_torque = g[v_idx];
            let tau_max = limits.tau_max[v_idx];
            let torque_margin = k.difference(tau_max, gravity_torque.abs());
            r.push(GravityLoad { joint_idx: i, v_idx, gravity_torque, tau_max, torque_margin });
            assert(r@.drop_last() =~= before);
        }
    }
    assert(rnea::inverse_dynamics(k, *model, q@, aba::zeros(model.nv as int), aba::zeros(model.nv as int), g@));
    r
}

/// Whether `r` is the torque that a unit of mass adds, if the joint moves it as `column` says.
pub open spec fn torque_of_mass<K: SpatialMath>(k: &K, m: Model, column: Motion, r: Real) -> bool {
    exists|d: Real| #[trigger]
        call_ensures(K::dot3, (k, column.linear, m.gravity), d) && r == d.negated()
}

/// Whether `tau` are the torques that a unit of mass at a joint adds.
pub open spec fn torques_of_mass<K: SpatialMath>(k: &K, m: Model, q: Seq<Real>, joint: int, tau: Seq<Real>) -> bool {
    &&& tau.len() == m.nv
    &&& exists|jac: Seq<Motion>|
        {
            &&& #[trigger] jacobian::joint_jacobian(k, m, q, joint, Seq::empty(), jac)
            &&& forall|c: int| 0 <= c < m.nv ==> torque_of_mass(k, m, jac[c], #[trigger] tau[c])
        }
}

/// Torque that each unit of mass hung at a joint adds.
pub fn payload_tau_per_kg<K: SpatialMath>(k: &K, model: &Model, q: &[Real], ee_joint: usize) -> (tau: Vec<Real>)
    requires
        model.wf(),
        q@.len() == model.nq,
        0 < ee_joint < model.joints@.len(),
    ensures
        torques_of_mass(k, *model, q@, ee_joint as int, tau@),
{
    let jac = compute_joint_jacobian(k, model, q, ee_joint);
    let mut tau: Vec<Real> = Vec::new();
    for c in 0..model.nv
        invariant
            jac@.len() == model.nv,
            tau@.len() == c,
            forall|x: int| 0 <= x < c ==> torque_of_mass(k, *model, jac@[x], #[trigger] tau@[x]),
    {
        let d = k.dot3(jac[c].linear, model.gravity);
        assert(call_ensures(K::dot3, (k, jac@[c as int].linear, model.gravity), d));
        let t = d.neg();
        assert(torque_of_mass(k, *model, jac@[c as int], t));
        tau.push(t);
    }
    assert(jacobian::joint_jacobian(k, *model, q@, ee_joint as int, Seq::empty(), jac@));
    tau
}

/// Whether a load bounds the mass: the mass loads the joint, which has a torque limit.
pub open spec fn bounds_mass(l: GravityLoad, t: Real) -> bool {
    &&& !t.unsigned().below(Real { bits: NEGLIGIBLE })
    &&& l.tau_max.finite()
    &&& !l.tau_max.at_most(Real::zero())
}

/// The limit that the mass drives the joint to.
pub open spec fn limit_ahead(l: GravityLoad, t: Real) -> Real {
    if Real::zero().below(t) {
        l.tau_max
    } else {
        l.tau_max.negated()
    }
}

/// Whether `b` is the mass at which the joint reaches its limit, if there is one.
pub open spec fn mass_bound<K: SpatialMath>(k: &K, l: GravityLoad, t: Real, b: Option<Real>) -> bool {
    match b {
        Some(x) => {
            &&& bounds_mass(l, t)
            &&& exists|d: Real| #[trigger]
                call_ensures(
                    K::difference,
                    (k, limit_ahead(l, t), l.gravity_torque),
                    d,
                ) && call_ensures(
                    K::quotient,
                    (k, d, t),
                    x,
                )
        },
        None => !bounds_mass(l, t),
    }
}

fn bound_mass<K: SpatialMath>(k: &K, l: GravityLoad, t: Real) -> (b: Option<Real>)
    ensures
        mass_bound(k, l, t, b),
{
    if t.abs().lt(Real { bits: NEGLIGIBLE }) {
        return None;
    }
    if !l.tau_max.is_finite() || l.tau_max.le(Real::zero()) {
        return None;
    }
    let limit = if Real::zero().lt(t) {
        l.tau_max
    } else {
        l.tau_max.neg()
    };
    let d = k.difference(limit, l.gravity_torque);
    assert(call_ensures(K::difference, (k, limit_ahead(l, t), l.gravity_torque), d));
    Some(k.quotient(d, t))
}

/// The tightest of the first `n` bounds and the joint that it belongs to, the first one if
/// there are several.
pub open spec fn tightest(loads: Seq<GravityLoad>, bounds: Seq<Option<Real>>, n: int) -> (Real, usize)
    decreases n,
{
    if n <= 0 {
        (Real::infinity(), 0)
    } else {
        let before = tightest(loads, bounds, n - 1);
        match bounds[n - 1] {
            Some(x) => if x.below(before.0) {
                (x, loads[n - 1].joint_idx)
            } else {
                before
            },
            None => before,
        }
    }
}

/// No bound is below the tightest one.
pub proof fn tightest_is_least(loads: Seq<GravityLoad>, bounds: Seq<Option<Real>>, n: int, i: int)
    requires
        0 <= i < n,
        bounds[i] is Some,
    ensures
        !bounds[i]->0.below(tightest(loads, bounds, n).0),
        !tightest(loads, bounds, n).0.nan(),
    decreases n,
{
    tightest_is_a_number(loads, bounds, n - 1);
    tightest_is_a_number(loads, bounds, n);
    if i < n - 1 {
        tightest_is_least(loads, bounds, n - 1, i);
    }
}

proof fn tightest_is_a_number(loads: Seq<GravityLoad>, bounds: Seq<Option<Real>>, n: int)
    ensures
        !tightest(loads, bounds, n).0.nan(),
    decreases n,
{
    if n > 0 {
        tightest_is_a_number(loads, bounds, n - 1);
    }
}

/// Whether `bounds` are the bounds that the loads set on the mass.
pub open spec fn mass_bounds<K: SpatialMath>(
    k: &K,
    loads: Seq<GravityLoad>,
    tau: Seq<Real>,
    bounds: Seq<Option<Real>>,
) -> bool {
    &&& bounds.len() == loads.len()
    &&& forall|i: int|
        0 <= i < loads.len() ==> mass_bound(
            k,
            loads[i],
            tau[loads[i].v_idx as int],
            #[trigger] bounds[i],
        )
}

/// Whether gravity alone takes a joint beyond its torque limit.
pub open spec fn saturated(l: GravityLoad) -> bool {
    &&& l.tau_max.finite()
    &&& !l.tau_max.at_most(Real::zero())
    &&& l.tau_max.below(l.gravity_torque.unsigned())
}

fn test_saturated(l: GravityLoad) -> (r: bool)
    ensures
        r == saturated(l),
{
    l.tau_max.is_finite() && !l.tau_max.le(Real::zero()) && l.tau_max.lt(l.gravity_torque.abs())
}

/// The first of the loads from the `i`-th on that gravity alone takes beyond its limit.
pub open spec fn first_saturated(loads: Seq<GravityLoad>, i: int) -> Option<usize>
    decreases loads.len() - i,
{
    if i >= loads.len() {
        None
    } else if saturated(loads[i]) {
        Some(loads[i].joint_idx)
    } else {
        first_saturated(loads, i + 1)
    }
}

fn find_saturated(loads: &Vec<GravityLoad>) -> (r: Option<usize>)
    ensures
        r == first_saturated(loads@, 0),
{
    for i in 0..loads.len()
        invariant
            first_saturated(loads@, 0) == first_saturated(loads@, i as int),
    {
        if test_saturated(loads[i]) {
            return Some(loads[i].joint_idx);
        }
    }
    None
}

proof fn saturated_is_found(loads: Seq<GravityLoad>, i: int, j: int)
    requires
        0 <= i <= j < loads.len(),
        saturated(loads[j]),
    ensures
        first_saturated(loads, i) is Some,
    decreases j - i,
{
    if i < j {
        saturated_is_found(loads, i + 1, j);
    }
}

/// Whether any load sets a bound on the mass.
pub open spec fn any_bound(bounds: Seq<Option<Real>>) -> bool {
    exists|i: int| 0 <= i < bounds.len() && (#[trigger] bounds[i]) is Some
}

/// Whether `r` is what the bounds leave: the tightest one, or nothing where gravity alone takes a
/// joint beyond its limit.
pub open spec fn is_left(
    loads: Seq<GravityLoad>,
    bounds: Seq<Option<Real>>,
    tau: Seq<Real>,
    r: Option<PayloadCapacity>,
) -> bool {
    let best = tightest(loads, bounds, loads.len() as int);
    match (first_saturated(loads, 0), any_bound(bounds)) {
        (Some(joint), true) => {
            &&& r matches Some(c)
            &&& c.max_mass_kg == Real::zero()
            &&& c.limiting_joint == if best.0.below(Real::zero()) {
                best.1
            } else {
                joint
            }
            &&& c.tau_per_kg@ == tau
        },
        _ => match r {
            Some(c) => {
                &&& best.0.finite()
                &&& c.max_mass_kg == best.0.larger(Real::zero())
                &&& c.limiting_joint == best.1
                &&& c.tau_per_kg@ == tau
            },
            None => !best.0.finite(),
        },
    }
}

/// Whether `r` is the capacity that the loads and the torques of a unit of mass leave: nothing where
/// gravity alone takes a joint beyond its limit, unless no limit bounds the mass.
pub open spec fn is_capacity<K: SpatialMath>(
    k: &K,
    loads: Seq<GravityLoad>,
    tau: Seq<Real>,
    r: Option<PayloadCapacity>,
) -> bool {
    exists|bounds: Seq<Option<Real>>|
        #[trigger] mass_bounds(k, loads, tau, bounds) && is_left(loads, bounds, tau, r)
}

/// The capacity that the loads and the torques of a unit of mass leave.
pub fn capacity<K: SpatialMath>(k: &K, loads: &Vec<GravityLoad>, tau_per_kg: Vec<Real>) -> (r: Option<
    PayloadCapacity,
>)
    requires
        forall|i: int| 0 <= i < loads@.len() ==> (#[trigger] loads@[i]).v_idx < tau_per_kg@.len(),
    ensures
        is_capacity(k, loads@, tau_per_kg@, r),
{
    let mut mass = Real::infinity();
    let mut joint: usize = 0;
    let mut bounded = false;
    let ghost mut bounds: Seq<Option<Real>> = Seq::empty();
    for i in 0..loads.len()
        invariant
            forall|i: int| 0 <= i < loads@.len() ==> (#[trigger] loads@[i]).v_idx < tau_per_kg@.len(),
            bounds.len() == i,
            forall|j: int|
                0 <= j < i ==> mass_bound(
                    k,
                    loads@[j],
                    tau_per_kg@[loads@[j].v_idx as int],
                    #[trigger] bounds[j],
                ),
            (mass, joint) == tightest(loads@, bounds, i as int),
            bounded == any_bound(bounds),
    {
        let ghost before = bounds;
        let b = bound_mass(k, loads[i], tau_per_kg[loads[i].v_idx]);
        if let Some(x) = b {
            bounded = true;
            if x.lt(mass) {
                mass = x;
                joint = loads[i].joint_idx;
            }
        }
        proof {
            bounds = bounds.push(b);
            assert(bounds[i as int] == b);
            if any_bound(before) {
                let j = choose|j: int| 0 <= j < before.len() && (#[trigger] before[j]) is Some;
                assert(bounds[j] is Some);
            }
            assert(any_bound(bounds) == (any_bound(before) || b is Some)) by {
                if any_bound(bounds) && b is None {
                    let j = choose|j: int| 0 <= j < bounds.len() && (#[trigger] bounds[j]) is Some;
                    assert(before[j] is Some);
                }
            }
            tightest_frame(loads@, before, bounds, i as int);
        }
    }
    proof {
        tightest_is_a_number(loads@, bounds, loads@.len() as int);
        assert(mass_bounds(k, loads@, tau_per_kg@, bounds));
    }
    if bounded {
        if let Some(heavy) = find_saturated(loads) {
            let limiting_joint: usize = if mass.lt(Real::zero()) {
                joint
            } else {
                heavy
            };
            return Some(PayloadCapacity { max_mass_kg: Real::zero(), limiting_joint, tau_per_kg });
        }
    }
    if !mass.is_finite() {
        return None;
    }
    Some(
        PayloadCapacity {
            max_mass_kg: mass.max(Real::zero()),
            limiting_joint: joint,
            tau_per_kg,
        },
    )
}

/// Where gravity alone takes a joint beyond its limit, nothing can be held, provided that
/// some limit bounds what can.
pub proof fn saturation_leaves_nothing<K: SpatialMath>(
    k: &K,
    loads: Seq<GravityLoad>,
    tau: Seq<Real>,
    r: Option<PayloadCapacity>,
    i: int,
    j: int,
)
    requires
        is_capacity(k, loads, tau, r),
        0 <= i < loads.len(),
        saturated(loads[i]),
        0 <= j < loads.len(),
        bounds_mass(loads[j], tau[loads[j].v_idx as int]),
    ensures
        r matches Some(c) && c.max_mass_kg == Real::zero(),
{
    saturated_is_found(loads, 0, i);
    let bounds = choose|bounds: Seq<Option<Real>>|
        #[trigger] mass_bounds(k, loads, tau, bounds) && is_left(loads, bounds, tau, r);
    assert(mass_bound(k, loads[j], tau[loads[j].v_idx as int], bounds[j]));
    assert(bounds[j] is Some);
}

proof fn tightest_frame(loads: Seq<GravityLoad>, a: Seq<Option<Real>>, b: Seq<Option<Real>>, n: int)
    requires
        forall|i: int| 0 <= i < n ==> a[i] == b[i],
    ensures
        tightest(loads, a, n) == tightest(loads, b, n),
    decreases n,
{
    if n > 0 {
        tightest_frame(loads, a, b, n - 1);
    }
}

/// Largest payload that the joints can hold at a joint, unless no limit bounds it.
pub fn payload_capacity<K: SpatialMath>(
    k: &K,
    model: &Model,
    q: &[Real],
    ee_joint: usize,
    limits: &JointLimits,
) -> (r: Option<PayloadCapacity>)
    requires
        model.wf(),
        q@.len() == model.nq,
        0 < ee_joint < model.joints@.len(),
        limits.fits(*model),
    ensures
        exists|loads: Seq<GravityLoad>, tau: Seq<Real>|
            {
                &&& #[trigger] static_loads(k, *model, q@, *limits, loads)
                &&& #[trigger] torques_of_mass(k, *model, q@, ee_joint as int, tau)
                &&& is_capacity(k, loads, tau, r)
            },
{
    let loads = gravity_loads(k, model, q, limits);
    let tau_per_kg = payload_tau_per_kg(k, model, q, ee_joint);
    assert(static_loads(k, *model, q@, *limits, loads@));
    assert(torques_of_mass(k, *model, q@, ee_joint as int, tau_per_kg@));
    capacity(k, &loads, tau_per_kg)
}

/// Whether `u` is the share of its limit that a joint uses under a payload.
pub open spec fn is_utilisation<K: SpatialMath>(k: &K, l: GravityLoad, mass: Real, t: Real, u: Real) -> bool {
    exists|added: Real, total: Real|
        {
            &&& #[trigger] call_ensures(K::product, (k, mass, t), added)
            &&& #[trigger] call_ensures(K::sum, (k, l.gravity_torque, added), total)
            &&& call_ensures(K::quotient, (k, total.unsigned(), l.tau_max), u)
        }
}

/// Whether a load has a torque limit.
pub open spec fn limited_load(l: GravityLoad) -> bool {
    l.tau_max.finite() && Real::zero().below(l.tau_max)
}

/// Whether `r` lists those of the first `n` loads that have a torque limit, each with the
/// share that it uses.
pub open spec fn are_utilisations<K: SpatialMath>(
    k: &K,
    loads: Seq<GravityLoad>,
    mass: Real,
    tau: Seq<Real>,
    n: int,
    r: Seq<(usize, Real)>,
) -> bool
    decreases n,
{
    if n <= 0 {
        r.len() == 0
    } else if limited_load(loads[n - 1]) {
        &&& r.len() > 0
        &&& r.last().0 == loads[n - 1].joint_idx
        &&& is_utilisation(k, loads[n - 1], mass, tau[loads[n - 1].v_idx as int], r.last().1)
        &&& are_utilisations(k, loads, mass, tau, n - 1, r.drop_last())
    } else {
        are_utilisations(k, loads, mass, tau, n - 1, r)
    }
}

/// Share of its torque limit that each joint with a limit uses under a payload.
pub fn payload_utilisation<K: SpatialMath>(
    k: &K,
    model: &Model,
    q: &[Real],
    ee_joint: usize,
    mass_kg: Real,
    limits: &JointLimits,
) -> (r: Vec<(usize, Real)>)
    requires
        model.wf(),
        q@.len() == model.nq,
        0 < ee_joint < model.joints@.len(),
        limits.fits(*model),
    ensures
        exists|loads: Seq<GravityLoad>, tau: Seq<Real>|
            {
                &&& #[trigger] static_loads(k, *model, q@, *limits, loads)
                &&& #[trigger] torques_of_mass(k, *model, q@, ee_joint as int, tau)
                &&& are_utilisations(k, loads, mass_kg, tau, loads.len() as int, r@)
            },
{
    let loads = gravity_loads(k, model, q, limits);
    let tau = payload_tau_per_kg(k, model, q, ee_joint);
    let mut r: Vec<(usize, Real)> = Vec::new();
    for i in 0..loads.len()
        invariant
            tau@.len() == model.nv,
            forall|i: int| 0 <= i < loads@.len() ==> (#[trigger] loads@[i]).v_idx < model.nv,
            are_utilisations(k, loads@, mass_kg, tau@, i as int, r@),
    {
        let ghost before = r@;
        let l = loads[i];
        if l.tau_max.is_finite() && Real::zero().lt(l.tau_max) {
            let t = tau[l.v_idx];
            let added = k.product(mass_kg, t);
            let total = k.sum(l.gravity_torque, added);
            let u = k.quotient(total.abs(), l.tau_max);
            assert(call_ensures(K::product, (k, mass_kg, t), added));
            assert(call_ensures(K::sum, (k, l.gravity_torque, added), total));
            assert(is_utilisation(k, l, mass_kg, t, u));
            r.push((l.joint_idx, u));
            assert(r@.drop_last() =~= before);
        }
    }
    assert(static_loads(k, *model, q@, *limits, loads@));
    assert(torques_of_mass(k, *model, q@, ee_joint as int, tau@));
    r
}

// ── What the capacity is ──

/// Whether the joint of a load has a torque limit.
pub open spec fn limited(l: GravityLoad) -> bool {
    l.tau_max.finite() && exact::val(l.tau_max) > 0real
}

/// Whether a unit of mass that adds torque `t` loads a joint.
pub open spec fn loaded(t: Real) -> bool {
    exact::size(exact::val(t)) >= exact::val(Real { bits: NEGLIGIBLE })
}

/// Whether the joint holds its load together with `mass`, of which each unit adds torque `t`.
pub open spec fn held(l: GravityLoad, t: Real, mass: real) -> bool {
    exact::size(exact::val(l.gravity_torque) + mass * exact::val(t)) <= exact::val(l.tau_max)
}

proof fn mass_at_the_limit(g: real, t: real, limit: real, x: real, mass: real)
    requires
        limit > 0real,
        t != 0real,
        t > 0real ==> x * t == limit - g,
        t < 0real ==> x * t == -limit - g,
    ensures
        mass > x ==> exact::size(g + mass * t) > limit,
        exact::size(g) <= limit ==> x >= 0real,
        exact::size(g) <= limit && 0real <= mass <= x ==> exact::size(g + mass * t) <= limit,
        exact::size(g + x * t) == limit,
        (g + x * t > 0real) == (t > 0real),
{
    assert(t > 0real ==> (mass > x ==> mass * t > x * t) && (mass <= x ==> mass * t <= x * t) && (mass >= 0real
        ==> mass * t >= 0real) && (x < 0real ==> x * t < 0real)) by (nonlinear_arith);
    assert(t < 0real ==> (mass > x ==> mass * t < x * t) && (mass <= x ==> mass * t >= x * t) && (mass >= 0real
        ==> mass * t <= 0real) && (x < 0real ==> x * t > 0real)) by (nonlinear_arith);
}

/// The bound that a joint sets is the largest mass that it holds: the torque at the bound is at the
/// limit, on the side to which the mass drives it.  Where gravity alone keeps within the limit the bound
/// is not negative, and the joint holds every mass up to it.  It holds no greater one.
pub proof fn bound_is_the_largest_mass<K: SpatialMath>(k: &K, l: GravityLoad, t: Real, b: Option<Real>)
    requires
        exact::exact_numbers(k),
        l.gravity_torque.finite(),
        t.finite(),
        mass_bound(k, l, t, b),
    ensures
        b is Some <==> limited(l) && loaded(t),
        b matches Some(x) ==> {
            let at_bound = exact::val(l.gravity_torque) + exact::val(x) * exact::val(t);
            &&& x.finite()
            &&& exact::size(at_bound) == exact::val(l.tau_max)
            &&& at_bound > 0real <==> exact::val(t) > 0real
            &&& held(l, t, 0real) ==> exact::val(x) >= 0real
            &&& forall|mass: real|
                held(l, t, 0real) && 0real <= mass <= exact::val(x) ==> #[trigger] held(l, t, mass)
            &&& forall|mass: real| mass > exact::val(x) ==> !#[trigger] held(l, t, mass)
        },
{
    let small = Real { bits: NEGLIGIBLE };
    exact::signs_are_of_values(t);
    exact::signs_are_of_values(l.tau_max);
    exact::order_is_of_values(Real::zero(), t);
    exact::order_is_of_values(Real::zero(), small);
    exact::order_is_of_values(t.unsigned(), small);
    if l.tau_max.finite() {
        exact::order_is_of_values(l.tau_max, Real::zero());
    }
    if let Some(x) = b {
        let d = choose|d: Real| #[trigger]
            call_ensures(K::difference, (k, limit_ahead(l, t), l.gravity_torque), d) && call_ensures(
                K::quotient,
                (k, d, t),
                x,
            );
        let (g, v, limit) = (exact::val(l.gravity_torque), exact::val(t), exact::val(l.tau_max));
        assert(limit_ahead(l, t).finite());
        assert forall|mass: real|
            {
                &&& mass > exact::val(x) ==> !#[trigger] held(l, t, mass)
                &&& held(l, t, 0real) && 0real <= mass <= exact::val(x) ==> held(l, t, mass)
            } by {
            mass_at_the_limit(g, v, limit, exact::val(x), mass);
            assert(0real * v == 0real);
        }
        mass_at_the_limit(g, v, limit, exact::val(x), 0real);
        assert(0real * v == 0real);
    }
}

proof fn tightest_is_a_bound(loads: Seq<GravityLoad>, bounds: Seq<Option<Real>>, n: int) -> (j: int)
    requires
        0 <= n <= bounds.len(),
        forall|i: int| 0 <= i < n && (#[trigger] bounds[i]) is Some ==> bounds[i]->0.finite(),
    ensures
        (forall|i: int| 0 <= i < n ==> (#[trigger] bounds[i]) is None) ==> tightest(loads, bounds, n)
            == (Real::infinity(), 0usize),
        (exists|i: int| 0 <= i < n && (#[trigger] bounds[i]) is Some) ==> {
            &&& 0 <= j < n
            &&& bounds[j] == Some(tightest(loads, bounds, n).0)
            &&& loads[j].joint_idx == tightest(loads, bounds, n).1
            &&& forall|i: int|
                0 <= i < n && (#[trigger] bounds[i]) is Some ==> exact::val(bounds[j]->0) <= exact::val(
                    bounds[i]->0,
                )
        },
    decreases n,
{
    if n <= 0 {
        0
    } else {
        let j = tightest_is_a_bound(loads, bounds, n - 1);
        let before = tightest(loads, bounds, n - 1);
        match bounds[n - 1] {
            None => j,
            Some(x) => {
                if exists|i: int| 0 <= i < n - 1 && (#[trigger] bounds[i]) is Some {
                    exact::order_is_of_values(x, before.0);
                }
                if x.below(before.0) {
                    n - 1
                } else {
                    j
                }
            },
        }
    }
}

proof fn first_saturated_is_saturated(loads: Seq<GravityLoad>, i: int)
    requires
        0 <= i,
        first_saturated(loads, i) is Some,
    ensures
        exists|j: int|
            i <= j < loads.len() && saturated(loads[j]) && (#[trigger] loads[j]).joint_idx == first_saturated(
                loads,
                i,
            )->0,
    decreases loads.len() - i,
{
    if i < loads.len() && !saturated(loads[i]) {
        first_saturated_is_saturated(loads, i + 1);
    } else if i < loads.len() {
        assert(loads[i].joint_idx == first_saturated(loads, i)->0);
    }
}

/// The capacity is the largest mass that can be held.  There is one exactly where the mass loads a joint
/// that has a limit.  If every such joint and every other joint with a limit holds its own load, all of
/// them hold every mass up to the capacity, and the limiting joint holds no greater one; otherwise
/// nothing can be added, and the limiting joint does not even hold its own load.
pub proof fn capacity_is_the_largest_mass<K: SpatialMath>(
    k: &K,
    loads: Seq<GravityLoad>,
    tau: Seq<Real>,
    r: Option<PayloadCapacity>,
)
    requires
        exact::exact_numbers(k),
        forall|i: int|
            0 <= i < loads.len() ==> (#[trigger] loads[i]).gravity_torque.finite() && tau[loads[i].v_idx as int].finite(),
        is_capacity(k, loads, tau, r),
    ensures
        r is Some <==> exists|i: int|
            0 <= i < loads.len() && limited(#[trigger] loads[i]) && loaded(tau[loads[i].v_idx as int]),
        r matches Some(c) ==> {
            let settled = forall|i: int|
                0 <= i < loads.len() && limited(#[trigger] loads[i]) ==> held(
                    loads[i],
                    tau[loads[i].v_idx as int],
                    0real,
                );
            &&& c.tau_per_kg@ == tau
            &&& c.max_mass_kg.finite()
            &&& exact::val(c.max_mass_kg) >= 0real
            &&& settled ==> forall|i: int, mass: real|
                #![trigger held(loads[i], tau[loads[i].v_idx as int], mass)]
                0 <= i < loads.len() && limited(loads[i]) && loaded(tau[loads[i].v_idx as int]) && 0real <= mass
                    <= exact::val(c.max_mass_kg) ==> held(loads[i], tau[loads[i].v_idx as int], mass)
            &&& settled ==> exists|i: int|
                {
                    &&& 0 <= i < loads.len()
                    &&& (#[trigger] loads[i]).joint_idx == c.limiting_joint
                    &&& limited(loads[i])
                    &&& forall|mass: real|
                        mass > exact::val(c.max_mass_kg) ==> !#[trigger] held(
                            loads[i],
                            tau[loads[i].v_idx as int],
                            mass,
                        )
                }
            &&& !settled ==> exact::val(c.max_mass_kg) == 0real
            &&& !settled ==> exists|i: int|
                {
                    &&& 0 <= i < loads.len()
                    &&& (#[trigger] loads[i]).joint_idx == c.limiting_joint
                    &&& limited(loads[i])
                    &&& !held(loads[i], tau[loads[i].v_idx as int], 0real)
                }
        },
{
    let bounds = choose|bounds: Seq<Option<Real>>|
        #[trigger] mass_bounds(k, loads, tau, bounds) && is_left(loads, bounds, tau, r);
    let n = loads.len() as int;
    assert forall|i: int| 0 <= i < n implies (#[trigger] bounds[i] is Some <==> limited(loads[i]) && loaded(
        tau[loads[i].v_idx as int],
    )) && (bounds[i] matches Some(x) ==> x.finite()) && (limited(loads[i]) ==> (saturated(loads[i]) <==> !held(
        loads[i],
        tau[loads[i].v_idx as int],
        0real,
    ))) && (saturated(loads[i]) ==> limited(loads[i])) by {
        let l = loads[i];
        let t = tau[l.v_idx as int];
        bound_is_the_largest_mass(k, l, t, bounds[i]);
        exact::signs_are_of_values(l.gravity_torque);
        if l.tau_max.finite() {
            exact::order_is_of_values(l.tau_max, Real::zero());
            exact::order_is_of_values(l.tau_max, l.gravity_torque.unsigned());
        }
        assert(0real * exact::val(t) == 0real);
    }
    exact::signs_are_of_values(Real::zero());
    let best = tightest(loads, bounds, n);
    let j = tightest_is_a_bound(loads, bounds, n);
    if any_bound(bounds) {
        let (l, t) = (loads[j], tau[loads[j].v_idx as int]);
        assert(limited(loads[j]) && loaded(tau[loads[j].v_idx as int]));
        bound_is_the_largest_mass(k, l, t, bounds[j]);
        exact::order_is_of_values(best.0, Real::zero());
        match first_saturated(loads, 0) {
            Some(joint) => {
                first_saturated_is_saturated(loads, 0);
                let w = choose|w: int|
                    0 <= w < loads.len() && saturated(loads[w]) && (#[trigger] loads[w]).joint_idx == joint;
                assert(bounds[w] is Some || bounds[w] is None);
                assert(limited(loads[w]) && !held(loads[w], tau[loads[w].v_idx as int], 0real));
            },
            None => {
                assert forall|i: int| 0 <= i < n && limited(#[trigger] loads[i]) implies held(
                    loads[i],
                    tau[loads[i].v_idx as int],
                    0real,
                ) by {
                    assert(bounds[i] is Some || bounds[i] is None);
                    if saturated(loads[i]) {
                        saturated_is_found(loads, 0, i);
                    }
                }
                assert(exact::val(best.0) >= 0real);
                assert forall|i: int, mass: real|
                    #![trigger held(loads[i], tau[loads[i].v_idx as int], mass)]
                    0 <= i < loads.len() && limited(loads[i]) && loaded(tau[loads[i].v_idx as int]) && 0real <= mass
                        <= exact::val(best.0) implies held(loads[i], tau[loads[i].v_idx as int], mass) by {
                    assert(bounds[i] is Some);
                    bound_is_the_largest_mass(k, loads[i], tau[loads[i].v_idx as int], bounds[i]);
                }
            },
        }
    } else {
        assert forall|i: int| 0 <= i < n implies (#[trigger] bounds[i]) is None by {}
        assert forall|i: int| 0 <= i < n && limited(#[trigger] loads[i]) implies !loaded(
            tau[loads[i].v_idx as int],
        ) by {
            assert(bounds[i] is None);
        }
    }
}

/// Whether `u` is the share that the whole load of a joint, that of gravity and that of the mass, takes
/// of its limit.
pub open spec fn is_share(l: GravityLoad, mass: Real, t: Real, u: Real) -> bool {
    exact::val(u) * exact::val(l.tau_max) == exact::size(
        exact::val(l.gravity_torque) + exact::val(mass) * exact::val(t),
    )
}

/// Every joint that has a limit is listed with the share that its whole load takes of the limit: at most
/// one exactly where the joint holds the mass.
pub proof fn utilisations_are_shares_of_the_limits<K: SpatialMath>(
    k: &K,
    loads: Seq<GravityLoad>,
    mass: Real,
    tau: Seq<Real>,
    n: int,
    r: Seq<(usize, Real)>,
    i: int,
)
    requires
        exact::exact_numbers(k),
        0 <= i < n <= loads.len(),
        mass.finite(),
        forall|i: int|
            0 <= i < loads.len() ==> (#[trigger] loads[i]).gravity_torque.finite() && tau[loads[i].v_idx as int].finite(),
        are_utilisations(k, loads, mass, tau, n, r),
        limited(loads[i]),
    ensures
        exists|x: int|
            {
                &&& 0 <= x < r.len()
                &&& (#[trigger] r[x]).0 == loads[i].joint_idx
                &&& is_share(loads[i], mass, tau[loads[i].v_idx as int], r[x].1)
                &&& exact::val(r[x].1) <= 1real <==> held(loads[i], tau[loads[i].v_idx as int], exact::val(mass))
            },
    decreases n,
{
    let l = loads[n - 1];
    if l.tau_max.finite() {
        exact::order_is_of_values(Real::zero(), l.tau_max);
        exact::signs_are_of_values(l.tau_max);
    }
    if i == n - 1 {
        let t = tau[l.v_idx as int];
        let u = r.last().1;
        let (added, total) = choose|added: Real, total: Real|
            {
                &&& #[trigger] call_ensures(K::product, (k, mass, t), added)
                &&& #[trigger] call_ensures(K::sum, (k, l.gravity_torque, added), total)
                &&& call_ensures(K::quotient, (k, total.unsigned(), l.tau_max), u)
            };
        exact::signs_are_of_values(total);
        assert(total.unsigned().finite());
        let (x, y) = (exact::val(u), exact::val(l.tau_max));
        assert(x <= 1real <==> x * y <= y) by (nonlinear_arith)
            requires
                y > 0real,
        ;
        assert(r[r.len() - 1].0 == l.joint_idx);
    } else if limited_load(l) {
        utilisations_are_shares_of_the_limits(k, loads, mass, tau, n - 1, r.drop_last(), i);
        let x = choose|x: int|
            {
                &&& 0 <= x < r.drop_last().len()
                &&& (#[trigger] r.drop_last()[x]).0 == loads[i].joint_idx
                &&& is_share(loads[i], mass, tau[loads[i].v_idx as int], r.drop_last()[x].1)
                &&& exact::val(r.drop_last()[x].1) <= 1real <==> held(
                    loads[i],
                    tau[loads[i].v_idx as int],
                    exact::val(mass),
                )
            };
        assert(r[x] == r.drop_last()[x]);
    } else {
        utilisations_are_shares_of_the_limits(k, loads, mass, tau, n - 1, r, i);
    }
}

/// What is left of a joint's limit is the limit less the size of the load.
pub proof fn margin_is_what_is_left<K: SpatialMath>(k: &K, m: Model, g: Seq<Real>, lim: JointLimits, i: int, l: GravityLoad)
    requires
        exact::exact_numbers(k),
        l.tau_max.finite(),
        l.gravity_torque.finite(),
        is_load(k, m, g, lim, i, l),
    ensures
        exact::val(l.torque_margin) == exact::val(lim.tau_max@[m.v_idx@[i] as int]) - exact::size(
            exact::val(g[m.v_idx@[i] as int]),
        ),
{
    exact::signs_are_of_values(l.gravity_torque);
    assert(l.gravity_torque.unsigned().finite());
}

} // verus!
