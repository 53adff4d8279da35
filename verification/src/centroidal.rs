//! Centre of mass and momentum of the whole mechanism, in the world frame.

use vstd::prelude::*;
use crate::coriolis;
use crate::fk;
use crate::jacobian;
use crate::model;
use crate::spatial;
use crate::coriolis::{shift, TWO_STEPS};
use crate::data::{repeat, Data};
use crate::fk::forward_kinematics;
use crate::jacobian::compute_joint_jacobian_from_data;
use crate::model::Model;
use crate::number::{Real, Vector3};
use crate::numerics::TINY_LENGTH;
use crate::spatial::{combine, Inertia, LinkInertia, Motion, Placement, SpatialMath};

verus! {

/// Floating-point operations on masses and their positions.
///
/// Nothing is assumed of the results.
pub trait MassMath {
    /// A point of the frame placed at `x` as seen in the world.
    fn world_point(&self, x: Placement, p: Vector3) -> Vector3;

    /// The vector `p` plus `w` times the vector `x`.
    fn add_weighted(&self, p: Vector3, w: Real, x: Vector3) -> Vector3;

    /// The difference of two vectors.
    fn offset(&self, a: Vector3, b: Vector3) -> Vector3;

    /// The vector divided by a number.
    fn divide(&self, p: Vector3, w: Real) -> Vector3;

    /// Velocity of the point at `r` from the origin of a body that moves with `m`.
    fn point_velocity(&self, m: Motion, r: Vector3) -> Vector3;

    /// The vector `h` plus the angular momentum of a link about a point: that of its own
    /// rotation with `m`, and that of its centre, which is at `d` and moves with `v`.
    fn add_angular(&self, h: Vector3, x: Placement, link: LinkInertia, m: Motion, d: Vector3, v: Vector3) -> Vector3;

    /// The rotational inertia `i` plus that of a link whose centre is at `d`.
    fn add_rotational(&self, i: [Real; 9], x: Placement, link: LinkInertia, d: Vector3) -> [Real; 9];
}

/// Whether `r` is the sum of the masses of the first `n` links.
pub open spec fn mass_sum<K: SpatialMath>(k: &K, m: Model, n: int, r: Real) -> bool
    decreases n,
{
    if n <= 0 {
        r == Real::zero()
    } else {
        exists|p: Real|
            mass_sum(k, m, n - 1, p) && #[trigger] call_ensures(K::sum, (k, p, m.inertias@[n - 1].mass), r)
    }
}

/// Mass of the whole mechanism.
pub fn total_mass<K: SpatialMath>(k: &K, model: &Model) -> (r: Real)
    ensures
        mass_sum(k, *model, model.inertias@.len() as int, r),
{
    let mut r = Real::zero();
    for i in 0..model.inertias.len()
        invariant
            mass_sum(k, *model, i as int, r),
    {
        let p = r;
        r = k.sum(p, model.inertias[i].mass);
        assert(call_ensures(K::sum, (k, p, model.inertias@[i as int].mass), r));
    }
    r
}

/// Whether a link has no mass.
pub open spec fn massless(m: Model, i: int) -> bool {
    m.inertias@[i].mass.same(Real::zero())
}

/// Whether `c` is the centre of mass of link `i` in the world.
pub open spec fn link_center<K: MassMath>(k: &K, m: Model, abs: Seq<Placement>, i: int, c: Vector3) -> bool {
    call_ensures(K::world_point, (k, abs[i], m.inertias@[i].center_of_mass), c)
}

/// Whether `p` and `w` are the weighted sum of the centres and the sum of the masses of the
/// first `n` links.
pub open spec fn center_sum<K: SpatialMath + MassMath>(
    k: &K,
    m: Model,
    abs: Seq<Placement>,
    n: int,
    p: Vector3,
    w: Real,
) -> bool
    decreases n,
{
    if n <= 0 {
        p == Vector3::zero() && w == Real::zero()
    } else if massless(m, n - 1) {
        center_sum(k, m, abs, n - 1, p, w)
    } else {
        exists|p0: Vector3, w0: Real, c: Vector3|
            {
                &&& center_sum(k, m, abs, n - 1, p0, w0)
                &&& #[trigger] link_center(k, m, abs, n - 1, c)
                &&& #[trigger] call_ensures(K::add_weighted, (k, p0, m.inertias@[n - 1].mass, c), p)
                &&& #[trigger] call_ensures(K::sum, (k, w0, m.inertias@[n - 1].mass), w)
            }
    }
}

/// Whether `r` is the centre of mass and `w` the mass of the links.
pub open spec fn is_center<K: SpatialMath + MassMath>(
    k: &K,
    m: Model,
    abs: Seq<Placement>,
    r: Vector3,
    w: Real,
) -> bool {
    exists|p: Vector3|
        {
            &&& #[trigger] center_sum(k, m, abs, m.joints@.len() as int, p, w)
            &&& if Real::zero().below(w) {
                call_ensures(K::divide, (k, p, w), r)
            } else {
                r == p
            }
        }
}

fn center<K: SpatialMath + MassMath>(k: &K, model: &Model, abs: &Vec<Placement>) -> (r: (Vector3, Real))
    requires
        model.wf(),
        abs@.len() == model.joints@.len(),
    ensures
        is_center(k, *model, abs@, r.0, r.1),
{
    let mut p = Vector3::zero();
    let mut w = Real::zero();
    let n: usize = model.joints.len();
    for i in 0..n
        invariant
            n == model.joints@.len(),
            model.wf(),
            abs@.len() == n,
            center_sum(k, *model, abs@, i as int, p, w),
    {
        let link = model.inertias[i];
        if !link.mass.equals(Real::zero()) {
            let p0 = p;
            let w0 = w;
            let c = k.world_point(abs[i], link.center_of_mass);
            p = k.add_weighted(p0, link.mass, c);
            w = k.sum(w0, link.mass);
            assert(link_center(k, *model, abs@, i as int, c));
            assert(call_ensures(K::add_weighted, (k, p0, model.inertias@[i as int].mass, c), p));
            assert(call_ensures(K::sum, (k, w0, model.inertias@[i as int].mass), w));
        }
    }
    assert(center_sum(k, *model, abs@, n as int, p, w));
    if Real::zero().lt(w) {
        (k.divide(p, w), w)
    } else {
        (p, w)
    }
}

/// Whether `r` is the centre of mass of a configuration; the origin if there is no mass.
pub open spec fn center_of_mass<K: SpatialMath + MassMath>(k: &K, m: Model, q: Seq<Real>, r: Vector3) -> bool {
    exists|d: Data, c: Vector3, w: Real|
        {
            &&& d.fits(m)
            &&& #[trigger] fk::all_placed(k, m, q, d)
            &&& #[trigger] is_center(k, m, d.oMi@, c, w)
            &&& r == if Real::zero().below(w) {
                c
            } else {
                Vector3::zero()
            }
        }
}

/// Centre of mass of a configuration.
pub fn compute_com<K: SpatialMath + MassMath>(k: &K, model: &Model, q: &[Real]) -> (r: Vector3)
    requires
        model.wf(),
        q@.len() == model.nq,
    ensures
        center_of_mass(k, *model, q@, r),
{
    let data = forward_kinematics(k, model, q);
    let (c, w) = center(k, model, &data.oMi);
    assert(fk::all_placed(k, *model, q@, data));
    assert(is_center(k, *model, data.oMi@, c, w));
    if Real::zero().lt(w) {
        c
    } else {
        Vector3::zero()
    }
}

/// Whether link `i` counts: it moves and has mass.
pub open spec fn counts(m: Model, i: int) -> bool {
    i > 0 && !massless(m, i)
}

/// Whether `jacs` holds the Jacobians of the links that count.
pub open spec fn link_jacobians<K: SpatialMath>(k: &K, m: Model, abs: Seq<Placement>, jacs: Seq<Seq<Motion>>) -> bool {
    &&& jacs.len() == m.joints@.len()
    &&& forall|i: int|
        0 <= i < m.joints@.len() && counts(m, i) ==> jacobian::is_jacobian(
            k,
            m,
            abs,
            abs[i].translation,
            i,
            Seq::empty(),
            #[trigger] jacs[i],
        )
}

fn compute_link_jacobians<K: SpatialMath>(k: &K, model: &Model, data: &Data) -> (jacs: Vec<Vec<Motion>>)
    requires
        model.wf(),
        data.fits(*model),
    ensures
        link_jacobians(k, *model, data.oMi@, jacs@.map_values(|j: Vec<Motion>| j@)),
        jacs@.len() == model.joints@.len(),
        forall|i: int| 0 <= i < jacs@.len() ==> (#[trigger] jacs@[i])@.len() == model.nv,
{
    let n: usize = model.joints.len();
    let mut jacs: Vec<Vec<Motion>> = Vec::new();
    for i in 0..n
        invariant
            n == model.joints@.len(),
            model.wf(),
            data.fits(*model),
            jacs@.len() == i,
            forall|j: int| 0 <= j < i ==> (#[trigger] jacs@[j])@.len() == model.nv,
            forall|j: int|
                0 <= j < i && counts(*model, j) ==> jacobian::is_jacobian(
                    k,
                    *model,
                    data.oMi@,
                    data.oMi@[j].translation,
                    j,
                    Seq::empty(),
                    #[trigger] jacs@[j]@,
                ),
    {
        let jac = if i > 0 && !model.inertias[i].mass.equals(Real::zero()) {
            compute_joint_jacobian_from_data(k, model, data, i)
        } else {
            repeat(Motion::zero(), model.nv)
        };
        jacs.push(jac);
    }
    let ghost views = jacs@.map_values(|j: Vec<Motion>| j@);
    assert forall|i: int| 0 <= i < model.joints@.len() && counts(*model, i) implies jacobian::is_jacobian(
        k,
        *model,
        data.oMi@,
        data.oMi@[i].translation,
        i,
        Seq::empty(),
        #[trigger] views[i],
    ) by {
        assert(views[i] == jacs@[i]@);
    }
    jacs
}

/// Whether `v` is what the motion `column` of link `i` does to its centre of mass.
pub open spec fn center_velocity<K: MassMath>(
    k: &K,
    m: Model,
    abs: Seq<Placement>,
    i: int,
    column: Motion,
    c: Vector3,
    v: Vector3,
) -> bool {
    exists|r: Vector3| #[trigger]
        call_ensures(K::offset, (k, c, abs[i].translation), r) && call_ensures(
            K::point_velocity,
            (k, column, r),
            v,
        )
}

/// Whether `p` is the momentum of the first `n` links for the number
/// `col` of the velocity.
pub open spec fn momentum_sum<K: SpatialMath + MassMath>(
    k: &K,
    m: Model,
    abs: Seq<Placement>,
    jacs: Seq<Seq<Motion>>,
    col: int,
    n: int,
    p: Vector3,
) -> bool
    decreases n,
{
    if n <= 0 {
        p == Vector3::zero()
    } else if !counts(m, n - 1) {
        momentum_sum(k, m, abs, jacs, col, n - 1, p)
    } else {
        exists|p0: Vector3, c: Vector3, v: Vector3|
            {
                &&& momentum_sum(k, m, abs, jacs, col, n - 1, p0)
                &&& link_center(k, m, abs, n - 1, c)
                &&& #[trigger] center_velocity(k, m, abs, n - 1, jacs[n - 1][col], c, v)
                &&& #[trigger] call_ensures(K::add_weighted, (k, p0, m.inertias@[n - 1].mass, v), p)
            }
    }
}

/// Whether `w` is the mass of those of the first `n` links that have any.
pub open spec fn whole_mass<K: SpatialMath>(k: &K, m: Model, n: int, w: Real) -> bool
    decreases n,
{
    if n <= 0 {
        w == Real::zero()
    } else if massless(m, n - 1) {
        whole_mass(k, m, n - 1, w)
    } else {
        exists|p: Real|
            whole_mass(k, m, n - 1, p) && #[trigger] call_ensures(
                K::sum,
                (k, p, m.inertias@[n - 1].mass),
                w,
            )
    }
}

fn compute_center_velocity<K: MassMath>(
    k: &K,
    model: &Model,
    abs: &Vec<Placement>,
    i: usize,
    column: Motion,
    c: Vector3,
) -> (v: Vector3)
    requires
        i < abs@.len(),
    ensures
        center_velocity(k, *model, abs@, i as int, column, c, v),
{
    let r = k.offset(c, abs[i].translation);
    assert(call_ensures(K::offset, (k, c, abs@[i as int].translation), r));
    k.point_velocity(column, r)
}

/// Adds up the momenta of the links for each number of the velocity.
fn linear_momenta<K: SpatialMath + MassMath>(
    k: &K,
    model: &Model,
    abs: &Vec<Placement>,
    jacs: &Vec<Vec<Motion>>,
) -> (p: Vec<Vector3>)
    requires
        model.wf(),
        abs@.len() == model.joints@.len(),
        jacs@.len() == model.joints@.len(),
        forall|i: int| 0 <= i < jacs@.len() ==> (#[trigger] jacs@[i])@.len() == model.nv,
    ensures
        p@.len() == model.nv,
        forall|c: int|
            0 <= c < model.nv ==> momentum_sum(
                k,
                *model,
                abs@,
                jacs@.map_values(|j: Vec<Motion>| j@),
                c,
                model.joints@.len() as int,
                #[trigger] p@[c],
            ),
{
    let ghost views = jacs@.map_values(|j: Vec<Motion>| j@);
    let mut p: Vec<Vector3> = Vec::new();
    let n: usize = model.joints.len();
    for col in 0..model.nv
        invariant
            n == model.joints@.len(),
            model.wf(),
            abs@.len() == n,
            jacs@.len() == n,
            forall|i: int| 0 <= i < jacs@.len() ==> (#[trigger] jacs@[i])@.len() == model.nv,
            views == jacs@.map_values(|j: Vec<Motion>| j@),
            p@.len() == col,
            forall|c: int|
                0 <= c < col ==> momentum_sum(k, *model, abs@, views, c, n as int, #[trigger] p@[c]),
    {
        let mut s = Vector3::zero();
        for i in 0..n
            invariant
                n == model.joints@.len(),
                model.wf(),
                abs@.len() == n,
                jacs@.len() == n,
                col < model.nv,
                forall|i: int| 0 <= i < jacs@.len() ==> (#[trigger] jacs@[i])@.len() == model.nv,
                views == jacs@.map_values(|j: Vec<Motion>| j@),
                momentum_sum(k, *model, abs@, views, col as int, i as int, s),
        {
            let link = model.inertias[i];
            if i > 0 && !link.mass.equals(Real::zero()) {
                let s0 = s;
                let c = k.world_point(abs[i], link.center_of_mass);
                assert(jacs@[i as int]@.len() == model.nv);
                let v = compute_center_velocity(k, model, abs, i, jacs[i][col], c);
                s = k.add_weighted(s0, link.mass, v);
                assert(link_center(k, *model, abs@, i as int, c));
                assert(views[i as int][col as int] == jacs@[i as int]@[col as int]);
                assert(center_velocity(
                    k,
                    *model,
                    abs@,
                    i as int,
                    views[i as int][col as int],
                    c,
                    v,
                ));
                assert(call_ensures(K::add_weighted, (k, s0, model.inertias@[i as int].mass, v), s));
            }
        }
        p.push(s);
    }
    p
}

/// Whether `jac` is the Jacobian of the centre of mass.
pub open spec fn com_jacobian<K: SpatialMath + MassMath>(k: &K, m: Model, q: Seq<Real>, jac: Seq<Vector3>) -> bool {
    exists|d: Data, jacs: Seq<Seq<Motion>>, w: Real|
        {
            &&& d.fits(m)
            &&& #[trigger] fk::all_placed(k, m, q, d)
            &&& #[trigger] link_jacobians(k, m, d.oMi@, jacs)
            &&& #[trigger] whole_mass(k, m, m.joints@.len() as int, w)
            &&& jac.len() == m.nv
            &&& forall|c: int|
                0 <= c < m.nv ==> mean_velocity(k, m, d.oMi@, jacs, c, w, #[trigger] jac[c])
        }
}

/// Whether `r` is the velocity of the centre of mass for the number `c` of the velocity.
pub open spec fn mean_velocity<K: SpatialMath + MassMath>(
    k: &K,
    m: Model,
    abs: Seq<Placement>,
    jacs: Seq<Seq<Motion>>,
    c: int,
    w: Real,
    r: Vector3,
) -> bool {
    exists|p: Vector3|
        {
            &&& #[trigger] momentum_sum(k, m, abs, jacs, c, m.joints@.len() as int, p)
            &&& if Real::zero().below(w) {
                call_ensures(K::divide, (k, p, w), r)
            } else {
                r == p
            }
        }
}

fn compute_whole_mass<K: SpatialMath>(k: &K, model: &Model) -> (w: Real)
    requires
        model.wf(),
    ensures
        whole_mass(k, *model, model.joints@.len() as int, w),
{
    let mut w = Real::zero();
    let n: usize = model.joints.len();
    for i in 0..n
        invariant
            n == model.joints@.len(),
            model.wf(),
            whole_mass(k, *model, i as int, w),
    {
        let link = model.inertias[i];
        if !link.mass.equals(Real::zero()) {
            let p = w;
            w = k.sum(p, link.mass);
            assert(call_ensures(K::sum, (k, p, model.inertias@[i as int].mass), w));
        }
    }
    w
}

/// Jacobian of the centre of mass: its velocity for each number of the velocity.
pub fn compute_com_jacobian<K: SpatialMath + MassMath>(k: &K, model: &Model, q: &[Real]) -> (jac: Vec<Vector3>)
    requires
        model.wf(),
        q@.len() == model.nq,
    ensures
        com_jacobian(k, *model, q@, jac@),
{
    let data = forward_kinematics(k, model, q);
    let jacs = compute_link_jacobians(k, model, &data);
    let ghost views = jacs@.map_values(|j: Vec<Motion>| j@);
    let p = linear_momenta(k, model, &data.oMi, &jacs);
    let w = compute_whole_mass(k, model);
    let mut jac: Vec<Vector3> = Vec::new();
    for c in 0..model.nv
        invariant
            p@.len() == model.nv,
            forall|c: int|
                0 <= c < model.nv ==> momentum_sum(
                    k,
                    *model,
                    data.oMi@,
                    views,
                    c,
                    model.joints@.len() as int,
                    #[trigger] p@[c],
                ),
            jac@.len() == c,
            forall|x: int|
                0 <= x < c ==> mean_velocity(k, *model, data.oMi@, views, x, w, #[trigger] jac@[x]),
    {
        let r = if Real::zero().lt(w) {
            k.divide(p[c], w)
        } else {
            p[c]
        };
        assert(momentum_sum(
            k,
            *model,
            data.oMi@,
            views,
            c as int,
            model.joints@.len() as int,
            p@[c as int],
        ));
        assert(mean_velocity(k, *model, data.oMi@, views, c as int, w, r));
        jac.push(r);
    }
    assert(fk::all_placed(k, *model, q@, data));
    assert(link_jacobians(k, *model, data.oMi@, views));
    assert(whole_mass(k, *model, model.joints@.len() as int, w));
    jac
}

/// Whether `r` is the sum of the first `n` vectors, each times its number.
pub open spec fn weighted_sum<K: MassMath>(k: &K, s: Seq<Vector3>, x: Seq<Real>, n: int, r: Vector3) -> bool
    decreases n,
{
    if n <= 0 {
        r == Vector3::zero()
    } else {
        exists|p: Vector3|
            weighted_sum(k, s, x, n - 1, p) && #[trigger] call_ensures(
                K::add_weighted,
                (k, p, x[n - 1], s[n - 1]),
                r,
            )
    }
}

/// Velocity of the centre of mass.
pub fn compute_com_velocity<K: SpatialMath + MassMath>(k: &K, model: &Model, q: &[Real], v: &[Real]) -> (r: Vector3)
    requires
        model.wf(),
        q@.len() == model.nq,
        v@.len() == model.nv,
    ensures
        exists|jac: Seq<Vector3>| #[trigger]
            com_jacobian(k, *model, q@, jac) && weighted_sum(k, jac, v@, model.nv as int, r),
{
    let jac = compute_com_jacobian(k, model, q);
    let mut r = Vector3::zero();
    for c in 0..model.nv
        invariant
            jac@.len() == model.nv,
            v@.len() == model.nv,
            weighted_sum(k, jac@, v@, c as int, r),
    {
        let p = r;
        r = k.add_weighted(p, v[c], jac[c]);
        assert(call_ensures(K::add_weighted, (k, p, v@[c as int], jac@[c as int]), r));
    }
    assert(com_jacobian(k, *model, q@, jac@));
    r
}

/// Whether `h` is the angular momentum of the first `n` links about `center` for the number
/// `col` of the velocity.
pub open spec fn angular_sum<K: MassMath>(
    k: &K,
    m: Model,
    abs: Seq<Placement>,
    jacs: Seq<Seq<Motion>>,
    center: Vector3,
    col: int,
    n: int,
    h: Vector3,
) -> bool
    decreases n,
{
    if n <= 0 {
        h == Vector3::zero()
    } else if !counts(m, n - 1) {
        angular_sum(k, m, abs, jacs, center, col, n - 1, h)
    } else {
        exists|h0: Vector3, c: Vector3, d: Vector3, v: Vector3|
            {
                &&& angular_sum(k, m, abs, jacs, center, col, n - 1, h0)
                &&& link_center(k, m, abs, n - 1, c)
                &&& #[trigger] call_ensures(K::offset, (k, c, center), d)
                &&& #[trigger] center_velocity(k, m, abs, n - 1, jacs[n - 1][col], c, v)
                &&& #[trigger] call_ensures(
                    K::add_angular,
                    (k, h0, abs[n - 1], m.inertias@[n - 1], jacs[n - 1][col], d, v),
                    h,
                )
            }
    }
}

fn angular_momentum<K: MassMath>(
    k: &K,
    model: &Model,
    abs: &Vec<Placement>,
    jacs: &Vec<Vec<Motion>>,
    center: Vector3,
    col: usize,
) -> (h: Vector3)
    requires
        model.wf(),
        abs@.len() == model.joints@.len(),
        jacs@.len() == model.joints@.len(),
        forall|i: int| 0 <= i < jacs@.len() ==> (#[trigger] jacs@[i])@.len() == model.nv,
        col < model.nv,
    ensures
        angular_sum(
            k,
            *model,
            abs@,
            jacs@.map_values(|j: Vec<Motion>| j@),
            center,
            col as int,
            model.joints@.len() as int,
            h,
        ),
{
    let ghost views = jacs@.map_values(|j: Vec<Motion>| j@);
    let n: usize = model.joints.len();
    let mut h = Vector3::zero();
    for i in 0..n
        invariant
            n == model.joints@.len(),
            model.wf(),
            abs@.len() == n,
            jacs@.len() == n,
            col < model.nv,
            forall|i: int| 0 <= i < jacs@.len() ==> (#[trigger] jacs@[i])@.len() == model.nv,
            views == jacs@.map_values(|j: Vec<Motion>| j@),
            angular_sum(k, *model, abs@, views, center, col as int, i as int, h),
    {
        let link = model.inertias[i];
        if i > 0 && !link.mass.equals(Real::zero()) {
            let h0 = h;
            assert(jacs@[i as int]@.len() == model.nv);
            let column = jacs[i][col];
            let c = k.world_point(abs[i], link.center_of_mass);
            let d = k.offset(c, center);
            let v = compute_center_velocity(k, model, abs, i, column, c);
            h = k.add_angular(h0, abs[i], link, column, d, v);
            assert(views[i as int][col as int] == column);
            assert(link_center(k, *model, abs@, i as int, c));
            assert(call_ensures(K::offset, (k, c, center), d));
            assert(center_velocity(k, *model, abs@, i as int, views[i as int][col as int], c, v));
            assert(call_ensures(
                K::add_angular,
                (
                    k,
                    h0,
                    abs@[i as int],
                    model.inertias@[i as int],
                    views[i as int][col as int],
                    d,
                    v,
                ),
                h,
            ));
        }
    }
    h
}

/// Whether `a` maps velocities to the momentum about the centre of mass.
pub open spec fn momentum_matrix<K: SpatialMath + MassMath>(k: &K, m: Model, q: Seq<Real>, a: Seq<Motion>) -> bool {
    exists|d: Data, jacs: Seq<Seq<Motion>>, center: Vector3, w: Real|
        {
            &&& d.fits(m)
            &&& #[trigger] fk::all_placed(k, m, q, d)
            &&& #[trigger] link_jacobians(k, m, d.oMi@, jacs)
            &&& #[trigger] is_center(k, m, d.oMi@, center, w)
            &&& a.len() == m.nv
            &&& forall|c: int|
                0 <= c < m.nv ==> momentum_column(k, m, d.oMi@, jacs, center, c, #[trigger] a[c])
        }
}

/// Whether `r` is the momentum about `center` for the number `c` of the velocity.
pub open spec fn momentum_column<K: SpatialMath + MassMath>(
    k: &K,
    m: Model,
    abs: Seq<Placement>,
    jacs: Seq<Seq<Motion>>,
    center: Vector3,
    c: int,
    r: Motion,
) -> bool {
    &&& angular_sum(k, m, abs, jacs, center, c, m.joints@.len() as int, r.angular)
    &&& momentum_sum(k, m, abs, jacs, c, m.joints@.len() as int, r.linear)
}

/// The matrix that maps velocities to the momentum about the centre of mass.
pub fn compute_centroidal_momentum_matrix<K: SpatialMath + MassMath>(k: &K, model: &Model, q: &[Real]) -> (a: Vec<
    Motion,
>)
    requires
        model.wf(),
        q@.len() == model.nq,
    ensures
        a@.len() == model.nv,
        momentum_matrix(k, *model, q@, a@),
{
    let data = forward_kinematics(k, model, q);
    let (center, w) = center(k, model, &data.oMi);
    let jacs = compute_link_jacobians(k, model, &data);
    let ghost views = jacs@.map_values(|j: Vec<Motion>| j@);
    let p = linear_momenta(k, model, &data.oMi, &jacs);
    let mut a: Vec<Motion> = Vec::new();
    for c in 0..model.nv
        invariant
            model.wf(),
            data.fits(*model),
            jacs@.len() == model.joints@.len(),
            forall|i: int| 0 <= i < jacs@.len() ==> (#[trigger] jacs@[i])@.len() == model.nv,
            views == jacs@.map_values(|j: Vec<Motion>| j@),
            p@.len() == model.nv,
            forall|c: int|
                0 <= c < model.nv ==> momentum_sum(
                    k,
                    *model,
                    data.oMi@,
                    views,
                    c,
                    model.joints@.len() as int,
                    #[trigger] p@[c],
                ),
            a@.len() == c,
            forall|x: int|
                0 <= x < c ==> momentum_column(
                    k,
                    *model,
                    data.oMi@,
                    views,
                    center,
                    x,
                    #[trigger] a@[x],
                ),
    {
        let angular = angular_momentum(k, model, &data.oMi, &jacs, center, c);
        let column = Motion { angular, linear: p[c] };
        assert(momentum_column(k, *model, data.oMi@, views, center, c as int, column));
        a.push(column);
    }
    assert(fk::all_placed(k, *model, q@, data));
    assert(link_jacobians(k, *model, data.oMi@, views));
    assert(is_center(k, *model, data.oMi@, center, w));
    a
}

/// Momentum about the centre of mass.
pub fn compute_momentum<K: SpatialMath + MassMath>(k: &K, model: &Model, q: &[Real], v: &[Real]) -> (r: Motion)
    requires
        model.wf(),
        q@.len() == model.nq,
        v@.len() == model.nv,
    ensures
        exists|a: Seq<Motion>| #[trigger]
            momentum_matrix(k, *model, q@, a) && spatial::combination(k, a, v@, 0, model.nv as int, r),
{
    let a = compute_centroidal_momentum_matrix(k, model, q);
    assert(momentum_matrix(k, *model, q@, a@));
    combine(k, &a, v, 0)
}

/// Whether `i` is the rotational inertia of the first `n` links about `center`.
pub open spec fn rotational_sum<K: MassMath>(
    k: &K,
    m: Model,
    abs: Seq<Placement>,
    center: Vector3,
    n: int,
    i: [Real; 9],
) -> bool
    decreases n,
{
    if n <= 0 {
        forall|x: int| 0 <= x < 9 ==> #[trigger] i[x] == Real::zero()
    } else if massless(m, n - 1) {
        rotational_sum(k, m, abs, center, n - 1, i)
    } else {
        exists|i0: [Real; 9], c: Vector3, d: Vector3|
            {
                &&& rotational_sum(k, m, abs, center, n - 1, i0)
                &&& link_center(k, m, abs, n - 1, c)
                &&& #[trigger] call_ensures(K::offset, (k, c, center), d)
                &&& #[trigger] call_ensures(K::add_rotational, (k, i0, abs[n - 1], m.inertias@[n - 1], d), i)
            }
    }
}

/// Whether `r` has the given rotational inertia in one block and the mass in the other.
pub open spec fn block_inertia(rotational: [Real; 9], mass: Real, r: Inertia) -> bool {
    forall|i: int, j: int|
        0 <= i < 6 && 0 <= j < 6 ==> (#[trigger] r.m[6 * j + i]) == if i < 3 && j < 3 {
            rotational[3 * j + i]
        } else if i == j {
            mass
        } else {
            Real::zero()
        }
}

fn assemble_inertia(a: [Real; 9], w: Real) -> (r: Inertia)
    ensures
        block_inertia(a, w, r),
{
    let z = Real::zero();
    Inertia {
        m: [
            a[0], a[1], a[2], z, z, z, a[3], a[4], a[5], z, z, z, a[6], a[7], a[8], z, z, z, z, z, z, w,
            z, z, z, z, z, z, w, z, z, z, z, z, z, w,
        ],
    }
}

/// Inertia of the whole mechanism with locked joints, about the centre of mass.
pub fn compute_centroidal_inertia<K: SpatialMath + MassMath>(k: &K, model: &Model, q: &[Real]) -> (r: Inertia)
    requires
        model.wf(),
        q@.len() == model.nq,
    ensures
        exists|d: Data, center: Vector3, w: Real, i: [Real; 9]|
            {
                &&& d.fits(*model)
                &&& #[trigger] fk::all_placed(k, *model, q@, d)
                &&& #[trigger] is_center(k, *model, d.oMi@, center, w)
                &&& rotational_sum(k, *model, d.oMi@, center, model.joints@.len() as int, i)
                &&& #[trigger] block_inertia(i, w, r)
            },
{
    let data = forward_kinematics(k, model, q);
    let (center, w) = center(k, model, &data.oMi);
    let z = Real::zero();
    let mut a: [Real; 9] = [z, z, z, z, z, z, z, z, z];
    let n: usize = model.joints.len();
    for i in 0..n
        invariant
            n == model.joints@.len(),
            model.wf(),
            data.fits(*model),
            rotational_sum(k, *model, data.oMi@, center, i as int, a),
    {
        let link = model.inertias[i];
        if !link.mass.equals(Real::zero()) {
            let a0 = a;
            let c = k.world_point(data.oMi[i], link.center_of_mass);
            let d = k.offset(c, center);
            a = k.add_rotational(a0, data.oMi[i], link, d);
            assert(link_center(k, *model, data.oMi@, i as int, c));
            assert(call_ensures(K::offset, (k, c, center), d));
            assert(call_ensures(
                K::add_rotational,
                (k, a0, data.oMi@[i as int], model.inertias@[i as int], d),
                a,
            ));
        }
    }
    assert(fk::all_placed(k, *model, q@, data));
    assert(is_center(k, *model, data.oMi@, center, w));
    assemble_inertia(a, w)
}

/// Whether `r` is the slope between two columns two steps apart.
pub open spec fn column_slope<K: SpatialMath>(k: &K, a: Motion, b: Motion, r: Motion) -> bool {
    exists|d: Motion| #[trigger]
        call_ensures(K::motion_difference, (k, a, b), d) && call_ensures(
            K::motion_quotient,
            (k, d, Real { bits: TWO_STEPS }),
            r,
        )
}

/// Whether `s` holds the derivatives of the columns of the momentum matrix by the `x`-th
/// number of the configuration.
pub open spec fn momentum_slope<K: SpatialMath + MassMath>(
    k: &K,
    m: Model,
    q: Seq<Real>,
    x: int,
    s: Seq<Motion>,
) -> bool {
    exists|qa: Seq<Real>, qb: Seq<Real>, a: Seq<Motion>, b: Seq<Motion>|
        {
            &&& #[trigger] coriolis::beside(k, q, x, qa, qb)
            &&& #[trigger] momentum_matrix(k, m, qa, a)
            &&& #[trigger] momentum_matrix(k, m, qb, b)
            &&& s.len() == m.nv
            &&& forall|c: int| 0 <= c < m.nv ==> column_slope(k, a[c], b[c], #[trigger] s[c])
        }
}

fn compute_momentum_slope<K: SpatialMath + MassMath>(k: &K, model: &Model, q: &[Real], x: usize) -> (s: Vec<Motion>)
    requires
        model.wf(),
        q@.len() == model.nq,
        x < model.nq,
    ensures
        s@.len() == model.nv,
        momentum_slope(k, *model, q@, x as int, s@),
{
    let (qa, qb) = shift(k, q, x);
    let a = compute_centroidal_momentum_matrix(k, model, qa.as_slice());
    let b = compute_centroidal_momentum_matrix(k, model, qb.as_slice());
    let mut s: Vec<Motion> = Vec::new();
    for c in 0..model.nv
        invariant
            a@.len() == model.nv,
            b@.len() == model.nv,
            s@.len() == c,
            forall|y: int| 0 <= y < c ==> column_slope(k, a@[y], b@[y], #[trigger] s@[y]),
    {
        let d = k.motion_difference(a[c], b[c]);
        let r = k.motion_quotient(d, Real { bits: TWO_STEPS });
        assert(call_ensures(K::motion_difference, (k, a@[c as int], b@[c as int]), d));
        assert(column_slope(k, a@[c as int], b@[c as int], r));
        s.push(r);
    }
    assert(coriolis::beside(k, q@, x as int, qa@, qb@));
    assert(momentum_matrix(k, *model, qa@, a@));
    assert(momentum_matrix(k, *model, qb@, b@));
    s
}

/// Whether a velocity is too small to matter.
pub open spec fn still(v: Real) -> bool {
    v.unsigned().below(Real { bits: TINY_LENGTH })
}

/// Whether `r` is the column `c` of the slopes for the first `n` numbers, each times its
/// velocity.
pub open spec fn slope_sum<K: SpatialMath>(
    k: &K,
    slopes: Seq<Seq<Motion>>,
    v: Seq<Real>,
    c: int,
    n: int,
    r: Motion,
) -> bool
    decreases n,
{
    if n <= 0 {
        r == Motion::zero()
    } else if still(v[n - 1]) {
        slope_sum(k, slopes, v, c, n - 1, r)
    } else {
        exists|p: Motion|
            slope_sum(k, slopes, v, c, n - 1, p) && #[trigger] call_ensures(
                K::motion_add_scaled,
                (k, p, slopes[n - 1][c], v[n - 1]),
                r,
            )
    }
}

/// Whether `r` is the time derivative of the momentum matrix.
pub open spec fn momentum_matrix_rate<K: SpatialMath + MassMath>(
    k: &K,
    m: Model,
    q: Seq<Real>,
    v: Seq<Real>,
    r: Seq<Motion>,
) -> bool {
    exists|slopes: Seq<Seq<Motion>>|
        {
            &&& slopes.len() == m.nv
            &&& forall|x: int|
                0 <= x < m.nv && !still(v[x]) ==> momentum_slope(k, m, q, x, #[trigger] slopes[x])
            &&& #[trigger] slope_sums(k, slopes, v, m.nv as int, m.nv as int, r)
        }
}

/// Whether the columns of `r` are sums of the first `n` slopes times velocities.
pub open spec fn slope_sums<K: SpatialMath>(
    k: &K,
    slopes: Seq<Seq<Motion>>,
    v: Seq<Real>,
    width: int,
    n: int,
    r: Seq<Motion>,
) -> bool {
    &&& r.len() == width
    &&& forall|c: int| 0 <= c < width ==> slope_sum(k, slopes, v, c, n, #[trigger] r[c])
}

proof fn slope_sum_frame<K: SpatialMath>(
    k: &K,
    a: Seq<Seq<Motion>>,
    b: Seq<Seq<Motion>>,
    v: Seq<Real>,
    c: int,
    n: int,
    r: Motion,
)
    requires
        slope_sum(k, a, v, c, n, r),
        forall|x: int| 0 <= x < n ==> a[x] == b[x],
    ensures
        slope_sum(k, b, v, c, n, r),
    decreases n,
{
    if n > 0 {
        if still(v[n - 1]) {
            slope_sum_frame(k, a, b, v, c, n - 1, r);
        } else {
            let p = choose|p: Motion|
                slope_sum(k, a, v, c, n - 1, p) && #[trigger] call_ensures(
                    K::motion_add_scaled,
                    (k, p, a[n - 1][c], v[n - 1]),
                    r,
                );
            slope_sum_frame(k, a, b, v, c, n - 1, p);
            assert(call_ensures(K::motion_add_scaled, (k, p, b[n - 1][c], v[n - 1]), r));
        }
    }
}

/// Time derivative of the momentum matrix, by central differences.
pub fn compute_centroidal_momentum_matrix_time_derivative<K: SpatialMath + MassMath>(
    k: &K,
    model: &Model,
    q: &[Real],
    v: &[Real],
) -> (r: Vec<Motion>)
    requires
        model.wf(),
        q@.len() == model.nq,
        v@.len() == model.nv,
    ensures
        r@.len() == model.nv,
        momentum_matrix_rate(k, *model, q@, v@, r@),
{
    proof {
        model::nv_at_most_nq(model.joints@, model.joints@.len() as int);
    }
    let n: usize = model.nv;
    let mut r: Vec<Motion> = repeat(Motion::zero(), n);
    let ghost mut slopes: Seq<Seq<Motion>> = Seq::empty();
    for x in 0..n
        invariant
            n == model.nv,
            n <= model.nq,
            model.wf(),
            q@.len() == model.nq,
            v@.len() == model.nv,
            slopes.len() == x,
            forall|y: int|
                0 <= y < x && !still(v@[y]) ==> momentum_slope(k, *model, q@, y, #[trigger] slopes[y]),
            slope_sums(k, slopes, v@, n as int, x as int, r@),
    {
        let ghost before = slopes;
        let ghost r0 = r@;
        if v[x].abs().lt(Real { bits: TINY_LENGTH }) {
            proof {
                slopes = slopes.push(Seq::empty());
                assert forall|c: int| 0 <= c < n implies slope_sum(
                    k,
                    slopes,
                    v@,
                    c,
                    x + 1,
                    #[trigger] r@[c],
                ) by {
                    slope_sum_frame(k, before, slopes, v@, c, x as int, r@[c]);
                }
            }
        } else {
            let s = compute_momentum_slope(k, model, q, x);
            proof {
                slopes = slopes.push(s@);
                assert(slopes[x as int] == s@);
            }
            for c in 0..n
                invariant
                    n == model.nv,
                    x < n,
                    v@.len() == n,
                    s@.len() == n,
                    r@.len() == n,
                    r0.len() == n,
                    slopes[x as int] == s@,
                    !still(v@[x as int]),
                    before.len() == x,
                    forall|y: int| 0 <= y < x ==> before[y] == slopes[y],
                    slope_sums(k, before, v@, n as int, x as int, r0),
                    forall|y: int| c <= y < n ==> #[trigger] r@[y] == r0[y],
                    forall|y: int| 0 <= y < c ==> slope_sum(k, slopes, v@, y, x + 1, #[trigger] r@[y]),
            {
                let p = r[c];
                let t = k.motion_add_scaled(p, s[c], v[x]);
                proof {
                    assert(slope_sum(k, before, v@, c as int, x as int, r0[c as int]));
                    slope_sum_frame(k, before, slopes, v@, c as int, x as int, p);
                    assert(call_ensures(
                        K::motion_add_scaled,
                        (k, p, slopes[x as int][c as int], v@[x as int]),
                        t,
                    ));
                    assert(slope_sum(k, slopes, v@, c as int, x + 1, t));
                }
                r.set(c, t);
            }
        }
        assert forall|y: int| 0 <= y < x + 1 && !still(v@[y]) implies momentum_slope(
            k,
            *model,
            q@,
            y,
            #[trigger] slopes[y],
        ) by {
            if y < x {
                assert(slopes[y] == before[y]);
            }
        }
    }
    assert(slope_sums(k, slopes, v@, n as int, n as int, r@));
    r
}

/// Rate of change of the momentum about the centre of mass.
pub fn compute_momentum_rate<K: SpatialMath + MassMath>(
    k: &K,
    model: &Model,
    q: &[Real],
    v: &[Real],
    a: &[Real],
) -> (r: Motion)
    requires
        model.wf(),
        q@.len() == model.nq,
        v@.len() == model.nv,
        a@.len() == model.nv,
    ensures
        exists|map: Seq<Motion>, rate: Seq<Motion>, x: Motion, y: Motion|
            {
                &&& #[trigger] momentum_matrix(k, *model, q@, map)
                &&& #[trigger] momentum_matrix_rate(k, *model, q@, v@, rate)
                &&& #[trigger] spatial::combination(k, map, a@, 0, model.nv as int, x)
                &&& #[trigger] spatial::combination(k, rate, v@, 0, model.nv as int, y)
                &&& call_ensures(K::motion_sum, (k, x, y), r)
            },
{
    let map = compute_centroidal_momentum_matrix(k, model, q);
    let rate = compute_centroidal_momentum_matrix_time_derivative(k, model, q, v);
    let x = combine(k, &map, a, 0);
    let y = combine(k, &rate, v, 0);
    assert(momentum_matrix(k, *model, q@, map@));
    assert(momentum_matrix_rate(k, *model, q@, v@, rate@));
    assert(spatial::combination(k, map@, a@, 0, model.nv as int, x));
    assert(spatial::combination(k, rate@, v@, 0, model.nv as int, y));
    k.motion_sum(x, y)
}

} // verus!
