//! Moving along velocities.

use vstd::prelude::*;
use crate::exact;
use crate::jacobian;
use crate::rigid;
use crate::joint::JointType;
use crate::model::Model;
use crate::number::Real;
use crate::spatial::SpatialMath;

verus! {

/// Floating-point operations on configurations of free bodies.
///
/// Nothing is assumed of the results.
pub trait FreeMotion {
    /// The configuration of a free body after moving with a velocity for a time.
    fn integrate_free(&self, q: [Real; 7], v: [Real; 6], dt: Real) -> [Real; 7];

    /// The configuration of a free body with its quaternion made a unit quaternion.
    fn normalize_free(&self, q: [Real; 7]) -> [Real; 7];

    /// The velocity that leads from one configuration of a free body to another in unit time.
    fn difference_free(&self, from: [Real; 7], to: [Real; 7]) -> [Real; 6];
}

/// The seven numbers from `at` on.
pub open spec fn seven(q: Seq<Real>, at: int) -> [Real; 7] {
    [q[at], q[at + 1], q[at + 2], q[at + 3], q[at + 4], q[at + 5], q[at + 6]]
}

/// The six numbers from `at` on.
pub open spec fn six(v: Seq<Real>, at: int) -> [Real; 6] {
    [v[at], v[at + 1], v[at + 2], v[at + 3], v[at + 4], v[at + 5]]
}

/// Whether `r` is the number `q` after moving with the velocity `v` for the time `dt`.
pub open spec fn advanced<K: SpatialMath>(k: &K, q: Real, v: Real, dt: Real, r: Real) -> bool {
    exists|d: Real| #[trigger]
        call_ensures(K::product, (k, v, dt), d) && call_ensures(K::sum, (k, q, d), r)
}

/// Whether the part of joint `i` in `r` is its part in `q` moved with `v` for the time `dt`.
pub open spec fn joint_integrated<K: SpatialMath + FreeMotion>(
    k: &K,
    m: Model,
    q: Seq<Real>,
    v: Seq<Real>,
    dt: Real,
    i: int,
    r: Seq<Real>,
) -> bool {
    let qi = m.q_idx@[i] as int;
    let vi = m.v_idx@[i] as int;
    match m.kind(i) {
        JointType::Revolute { .. } => advanced(k, q[qi], v[vi], dt, r[qi]),
        JointType::Prismatic { .. } => advanced(k, q[qi], v[vi], dt, r[qi]),
        JointType::Fixed => true,
        JointType::FreeFlyer => call_ensures(
            K::integrate_free,
            (k, seven(q, qi), six(v, vi), dt),
            seven(r, qi),
        ),
    }
}

/// Whether `r` is the configuration `q` moved with the velocity `v` for the time `dt`.
pub open spec fn integrated<K: SpatialMath + FreeMotion>(
    k: &K,
    m: Model,
    q: Seq<Real>,
    v: Seq<Real>,
    dt: Real,
    r: Seq<Real>,
) -> bool {
    &&& r.len() == q.len()
    &&& forall|i: int|
        0 <= i < m.joints@.len() ==> #[trigger] joint_integrated(k, m, q, v, dt, i, r)
}

proof fn joint_integrated_frame<K: SpatialMath + FreeMotion>(
    k: &K,
    m: Model,
    q: Seq<Real>,
    v: Seq<Real>,
    dt: Real,
    i: int,
    a: Seq<Real>,
    b: Seq<Real>,
)
    requires
        joint_integrated(k, m, q, v, dt, i, a),
        forall|x: int| m.q_idx@[i] <= x < m.q_idx@[i] + m.kind(i).nq() ==> a[x] == b[x],
    ensures
        joint_integrated(k, m, q, v, dt, i, b),
{
    let qi = m.q_idx@[i] as int;
    if let JointType::FreeFlyer = m.kind(i) {
        assert(seven(a, qi) =~= seven(b, qi));
    } else {
        assert(m.kind(i).nq() == 1 ==> a[qi] == b[qi]);
    }
}

/// Moves a configuration with a velocity for a time.
pub fn integrate<K: SpatialMath + FreeMotion>(k: &K, model: &Model, q: &[Real], v: &[Real], dt: Real) -> (r:
    Vec<Real>)
    requires
        model.wf(),
        q@.len() == model.nq,
        v@.len() == model.nv,
    ensures
        integrated(k, *model, q@, v@, dt, r@),
{
    let mut r: Vec<Real> = Vec::new();
    let n: usize = model.joints.len();
    for i in 0..n
        invariant
            n == model.joints@.len(),
            model.wf(),
            q@.len() == model.nq,
            v@.len() == model.nv,
            r@.len() == crate::model::nq_before(model.joints@, i as int),
            forall|j: int| 0 <= j < i ==> #[trigger] joint_integrated(k, *model, q@, v@, dt, j, r@),
    {
        let qi: usize = model.q_idx[i];
        let vi: usize = model.v_idx[i];
        proof {
            model.ranges(i as int);
        }
        let ghost before = r@;
        match model.joints[i].joint_type {
            JointType::Revolute { .. } => {
                let d = k.product(v[vi], dt);
                r.push(k.sum(q[qi], d));
            },
            JointType::Prismatic { .. } => {
                let d = k.product(v[vi], dt);
                r.push(k.sum(q[qi], d));
            },
            JointType::Fixed => {},
            JointType::FreeFlyer => {
                let a = take_seven(q, qi);
                let b: [Real; 6] = [v[vi], v[vi + 1], v[vi + 2], v[vi + 3], v[vi + 4], v[vi + 5]];
                assert(b =~= six(v@, vi as int));
                let c = k.integrate_free(a, b, dt);
                r.push(c[0]);
                r.push(c[1]);
                r.push(c[2]);
                r.push(c[3]);
                r.push(c[4]);
                r.push(c[5]);
                r.push(c[6]);
                assert(c =~= seven(r@, qi as int));
            },
        }
        assert forall|j: int| 0 <= j < i + 1 implies #[trigger] joint_integrated(
            k,
            *model,
            q@,
            v@,
            dt,
            j,
            r@,
        ) by {
            if j < i {
                assert(joint_integrated(k, *model, q@, v@, dt, j, before));
                crate::model::before_is_monotone(model.joints@, j + 1, i as int);
                joint_integrated_frame(k, *model, q@, v@, dt, j, before, r@);
            }
        }
    }
    r
}

/// Copies the seven numbers from `at` on.
fn take_seven(q: &[Real], at: usize) -> (r: [Real; 7])
    requires
        at + 7 <= q@.len(),
    ensures
        r == seven(q@, at as int),
{
    assert(q@.len() == q.len());
    let r: [Real; 7] = [
        q[at],
        q[at + 1],
        q[at + 2],
        q[at + 3],
        q[at + 4],
        q[at + 5],
        q[at + 6],
    ];
    assert(r =~= seven(q@, at as int));
    r
}

/// Whether the part of joint `i` in `r` is its part in `q`, made valid.
pub open spec fn joint_normalized<K: FreeMotion>(k: &K, m: Model, q: Seq<Real>, i: int, r: Seq<Real>) -> bool {
    let qi = m.q_idx@[i] as int;
    match m.kind(i) {
        JointType::Revolute { .. } => r[qi] == q[qi],
        JointType::Prismatic { .. } => r[qi] == q[qi],
        JointType::Fixed => true,
        JointType::FreeFlyer => call_ensures(K::normalize_free, (k, seven(q, qi)), seven(r, qi)),
    }
}

/// Whether `r` is the configuration `q`, made valid.
pub open spec fn normalized<K: FreeMotion>(k: &K, m: Model, q: Seq<Real>, r: Seq<Real>) -> bool {
    &&& r.len() == q.len()
    &&& forall|i: int| 0 <= i < m.joints@.len() ==> #[trigger] joint_normalized(k, m, q, i, r)
}

/// Makes a configuration valid: quaternions get unit length.
pub fn normalize_configuration<K: FreeMotion>(k: &K, model: &Model, q: &[Real]) -> (r: Vec<Real>)
    requires
        model.wf(),
        q@.len() == model.nq,
    ensures
        normalized(k, *model, q@, r@),
{
    let mut r: Vec<Real> = Vec::new();
    let n: usize = model.joints.len();
    for i in 0..n
        invariant
            n == model.joints@.len(),
            model.wf(),
            q@.len() == model.nq,
            r@.len() == crate::model::nq_before(model.joints@, i as int),
            forall|j: int| 0 <= j < i ==> #[trigger] joint_normalized(k, *model, q@, j, r@),
    {
        let qi: usize = model.q_idx[i];
        proof {
            model.ranges(i as int);
        }
        let ghost before = r@;
        match model.joints[i].joint_type {
            JointType::Revolute { .. } => r.push(q[qi]),
            JointType::Prismatic { .. } => r.push(q[qi]),
            JointType::Fixed => {},
            JointType::FreeFlyer => {
                let c = k.normalize_free(take_seven(q, qi));
                r.push(c[0]);
                r.push(c[1]);
                r.push(c[2]);
                r.push(c[3]);
                r.push(c[4]);
                r.push(c[5]);
                r.push(c[6]);
                assert(c =~= seven(r@, qi as int));
            },
        }
        assert forall|j: int| 0 <= j < i + 1 implies #[trigger] joint_normalized(k, *model, q@, j, r@) by {
            if j < i {
                assert(joint_normalized(k, *model, q@, j, before));
                crate::model::before_is_monotone(model.joints@, j + 1, i as int);
                if let JointType::FreeFlyer = model.kind(j) {
                    assert(seven(before, model.q_idx@[j] as int) =~= seven(r@, model.q_idx@[j] as int));
                } else {
                    assert(model.kind(j).nq() == 1 ==> before[model.q_idx@[j] as int]
                        == r@[model.q_idx@[j] as int]);
                }
            }
        }
    }
    r
}

/// Whether the part of joint `i` in `r` leads from its part in `a` to that in `b`.
pub open spec fn joint_difference<K: SpatialMath + FreeMotion>(
    k: &K,
    m: Model,
    a: Seq<Real>,
    b: Seq<Real>,
    i: int,
    r: Seq<Real>,
) -> bool {
    let qi = m.q_idx@[i] as int;
    let vi = m.v_idx@[i] as int;
    match m.kind(i) {
        JointType::Revolute { .. } => call_ensures(K::difference, (k, b[qi], a[qi]), r[vi]),
        JointType::Prismatic { .. } => call_ensures(K::difference, (k, b[qi], a[qi]), r[vi]),
        JointType::Fixed => true,
        JointType::FreeFlyer => call_ensures(
            K::difference_free,
            (k, seven(a, qi), seven(b, qi)),
            six(r, vi),
        ),
    }
}

/// Whether `r` is the velocity that leads from `a` to `b` in unit time.
pub open spec fn leads<K: SpatialMath + FreeMotion>(
    k: &K,
    m: Model,
    a: Seq<Real>,
    b: Seq<Real>,
    r: Seq<Real>,
) -> bool {
    &&& r.len() == m.nv
    &&& forall|i: int| 0 <= i < m.joints@.len() ==> #[trigger] joint_difference(k, m, a, b, i, r)
}

/// The velocity that leads from one configuration to another in unit time.
pub fn difference<K: SpatialMath + FreeMotion>(k: &K, model: &Model, from: &[Real], to: &[Real]) -> (r: Vec<Real>)
    requires
        model.wf(),
        from@.len() == model.nq,
        to@.len() == model.nq,
    ensures
        leads(k, *model, from@, to@, r@),
{
    let mut r: Vec<Real> = Vec::new();
    let n: usize = model.joints.len();
    for i in 0..n
        invariant
            n == model.joints@.len(),
            model.wf(),
            from@.len() == model.nq,
            to@.len() == model.nq,
            r@.len() == crate::model::nv_before(model.joints@, i as int),
            forall|j: int| 0 <= j < i ==> #[trigger] joint_difference(k, *model, from@, to@, j, r@),
    {
        let qi: usize = model.q_idx[i];
        let ghost vi = model.v_idx@[i as int] as int;
        proof {
            model.ranges(i as int);
        }
        let ghost before = r@;
        match model.joints[i].joint_type {
            JointType::Revolute { .. } => r.push(k.difference(to[qi], from[qi])),
            JointType::Prismatic { .. } => r.push(k.difference(to[qi], from[qi])),
            JointType::Fixed => {},
            JointType::FreeFlyer => {
                let c = k.difference_free(take_seven(from, qi), take_seven(to, qi));
                r.push(c[0]);
                r.push(c[1]);
                r.push(c[2]);
                r.push(c[3]);
                r.push(c[4]);
                r.push(c[5]);
                assert(c =~= six(r@, vi));
            },
        }
        assert forall|j: int| 0 <= j < i + 1 implies #[trigger] joint_difference(
            k,
            *model,
            from@,
            to@,
            j,
            r@,
        ) by {
            if j < i {
                assert(joint_difference(k, *model, from@, to@, j, before));
                crate::model::before_is_monotone(model.joints@, j + 1, i as int);
                if let JointType::FreeFlyer = model.kind(j) {
                    assert(six(before, model.v_idx@[j] as int) =~= six(r@, model.v_idx@[j] as int));
                } else {
                    assert(model.kind(j).nv() == 1 ==> before[model.v_idx@[j] as int]
                        == r@[model.v_idx@[j] as int]);
                }
            }
        }
    }
    r
}

// ── Moving there and back ──

/// Whether the motion of free bodies is exact: what leads from where a body was to where it is after moving
/// with a velocity for a time is the velocity times the time.
pub open spec fn exact_free_motion<K: SpatialMath + FreeMotion>(k: &K) -> bool {
    forall|q: [Real; 7], v: [Real; 6], dt: Real, r: [Real; 7], w: [Real; 6], t: int|
        #![trigger call_ensures(K::integrate_free, (k, q, v, dt), r), call_ensures(K::difference_free, (k, q, r), w), w[t]]
        call_ensures(K::integrate_free, (k, q, v, dt), r) && call_ensures(K::difference_free, (k, q, r), w) && 0 <= t
            < 6 ==> exact::val(w[t]) == exact::val(v[t]) * exact::val(dt)
}

/// What leads from a configuration to where it moves with a velocity in a time is the velocity times the
/// time, for every number of the velocity, whatever the joints.
pub proof fn difference_undoes_integration<K: SpatialMath + FreeMotion>(
    k: &K,
    m: Model,
    q: Seq<Real>,
    v: Seq<Real>,
    dt: Real,
    r: Seq<Real>,
    w: Seq<Real>,
    c: int,
)
    requires
        m.wf(),
        rigid::exact_scalars(k),
        exact_free_motion(k),
        integrated(k, m, q, v, dt, r),
        leads(k, m, q, r, w),
        0 <= c < m.nv,
    ensures
        exact::val(w[c]) == exact::val(v[c]) * exact::val(dt),
{
    let i = jacobian::columns_have_owners(m, c);
    assert(joint_integrated(k, m, q, v, dt, i, r));
    assert(joint_difference(k, m, q, r, i, w));
    let vi = m.v_idx@[i] as int;
    if let JointType::FreeFlyer = m.kind(i) {
        let s = six(w, vi);
        assert(s[c - vi] == w[c]);
        assert(six(v, vi)[c - vi] == v[c]);
    } else {
        assert(c == vi);
    }
}

/// Moving with what leads from one configuration to another for a unit of time leads there, for the numbers of
/// all joints that have one.
pub proof fn integration_undoes_difference<K: SpatialMath + FreeMotion>(
    k: &K,
    m: Model,
    a: Seq<Real>,
    b: Seq<Real>,
    v: Seq<Real>,
    r: Seq<Real>,
    i: int,
)
    requires
        m.wf(),
        rigid::exact_scalars(k),
        leads(k, m, a, b, v),
        integrated(k, m, a, v, Real::one(), r),
        0 <= i < m.joints@.len(),
        m.kind(i).nq() == 1,
    ensures
        exact::val(r[m.q_idx@[i] as int]) == exact::val(b[m.q_idx@[i] as int]),
{
    assert(joint_integrated(k, m, a, v, Real::one(), i, r));
    assert(joint_difference(k, m, a, b, i, v));
    exact::signs_are_of_values(Real::one());
    let y = exact::val(v[m.v_idx@[i] as int]);
    assert(y * 1real == y);
}

} // verus!
