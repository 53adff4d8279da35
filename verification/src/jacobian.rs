//! Geometric Jacobians, one spatial vector for each number of the velocity.

use vstd::prelude::*;
use crate::fk;
use crate::manifold;
use crate::pose;
use crate::spatial;
use crate::data::{repeat, Data};
use crate::fk::forward_kinematics;
use crate::manifold::{integrate, FreeMotion};
use crate::model::Model;
use crate::number::{Real, Vector3};
use crate::pose::{turn_back, PoseMath};
use crate::spatial::{combine, Motion, Placement, SpatialMath};

verus! {

/// Whether joint `j` owns the `c`-th number of the velocity.
pub open spec fn owns(m: Model, j: int, c: int) -> bool {
    m.v_idx@[j] <= c < m.v_idx@[j] + m.kind(j).nv()
}

/// Whether `r` is what the `c`-th number of the velocity, which belongs to joint `j`, does
/// to the point `target`.
pub open spec fn column<K: SpatialMath>(
    k: &K,
    m: Model,
    abs: Seq<Placement>,
    target: Vector3,
    j: int,
    c: int,
    r: Motion,
) -> bool {
    call_ensures(
        K::jacobian_column,
        (k, abs[j], m.kind(j).subspace()[c - m.v_idx@[j]], target),
        r,
    )
}

/// Whether a joint is among those left out.
pub open spec fn masked(mask: Seq<usize>, j: int) -> bool {
    exists|i: int| 0 <= i < mask.len() && #[trigger] mask[i] == j
}

/// Whether `jac` is the Jacobian of the point `target` on the body behind `joint`: the
/// columns of the joints on the way to the world that are not left out say what
/// they do to the point, all others are zero.
pub open spec fn is_jacobian<K: SpatialMath>(
    k: &K,
    m: Model,
    abs: Seq<Placement>,
    target: Vector3,
    joint: int,
    mask: Seq<usize>,
    jac: Seq<Motion>,
) -> bool {
    &&& jac.len() == m.nv
    &&& forall|j: int, c: int|
        #![trigger owns(m, j, c)]
        0 < j < m.joints@.len() && owns(m, j, c) ==> if m.supports(j, joint) && !masked(mask, j) {
            column(k, m, abs, target, j, c, jac[c])
        } else {
            jac[c] == Motion::zero()
        }
}

/// Writes the columns of joint `j`.
fn write_joint_column<K: SpatialMath>(
    k: &K,
    model: &Model,
    abs: &Vec<Placement>,
    target: Vector3,
    j: usize,
    jac: &mut Vec<Motion>,
)
    requires
        model.wf(),
        j < model.joints@.len(),
        abs@.len() == model.joints@.len(),
        old(jac)@.len() == model.nv,
    ensures
        final(jac)@.len() == model.nv,
        forall|c: int|
            0 <= c < model.nv ==> if owns(*model, j as int, c) {
                column(k, *model, abs@, target, j as int, c, #[trigger] final(jac)@[c])
            } else {
                final(jac)@[c] == old(jac)@[c]
            },
{
    proof {
        model.ranges(j as int);
    }
    let vi: usize = model.v_idx[j];
    let s = model.joints[j].joint_type.motion_subspace();
    let ghost start = jac@;
    for c in 0..s.len()
        invariant
            model.wf(),
            j < model.joints@.len(),
            abs@.len() == model.joints@.len(),
            vi == model.v_idx@[j as int],
            s@ == model.kind(j as int).subspace(),
            vi + s@.len() <= model.nv,
            jac@.len() == model.nv,
            forall|x: int|
                0 <= x < model.nv ==> if vi <= x < vi + c {
                    column(k, *model, abs@, target, j as int, x, #[trigger] jac@[x])
                } else {
                    jac@[x] == start[x]
                },
    {
        let ghost before = jac@;
        let r = k.jacobian_column(abs[j], s[c], target);
        jac.set(vi + c, r);
        assert forall|x: int| 0 <= x < model.nv implies if vi <= x < vi + c + 1 {
            column(k, *model, abs@, target, j as int, x, #[trigger] jac@[x])
        } else {
            jac@[x] == start[x]
        } by {
            if x != vi + c {
                assert(jac@[x] == before[x]);
            }
        }
    }
}

pub proof fn owners_differ(m: Model, a: int, b: int, c: int)
    requires
        m.wf(),
        0 <= a < m.joints@.len(),
        0 <= b < m.joints@.len(),
        owns(m, a, c),
        owns(m, b, c),
    ensures
        a == b,
        0 <= c < m.nv,
{
    m.ranges(a);
    m.ranges(b);
    if a < b {
        assert(m.v_idx@[a] + m.kind(a).nv() <= m.v_idx@[b]);
    } else if b < a {
        assert(m.v_idx@[b] + m.kind(b).nv() <= m.v_idx@[a]);
    }
}

fn test_masked(mask: &[usize], j: usize) -> (r: bool)
    ensures
        r == masked(mask@, j as int),
{
    for i in 0..mask.len()
        invariant
            forall|x: int| 0 <= x < i ==> (#[trigger] mask@[x]) != j,
    {
        if mask[i] == j {
            assert(mask@[i as int] == j);
            return true;
        }
    }
    false
}

/// Jacobian of a point on the body behind a joint, without the joints of the mask.
pub fn point_jacobian<K: SpatialMath>(
    k: &K,
    model: &Model,
    abs: &Vec<Placement>,
    target: Vector3,
    joint: usize,
    mask: &[usize],
) -> (jac: Vec<Motion>)
    requires
        model.wf(),
        joint < model.joints@.len(),
        abs@.len() == model.joints@.len(),
    ensures
        is_jacobian(k, *model, abs@, target, joint as int, mask@, jac@),
{
    let mut jac: Vec<Motion> = repeat(Motion::zero(), model.nv);
    let mut current: usize = joint;
    proof {
        assert forall|j: int, c: int| #![trigger owns(*model, j, c)]
            0 < j < model.joints@.len() && owns(*model, j, c) implies jac@[c] == Motion::zero() && !(j
            > joint && model.supports(j, joint as int)) by {
            owners_differ(*model, j, j, c);
            if model.supports(j, joint as int) {
                crate::model::support_is_below(*model, j, joint as int);
            }
        }
    }
    while current > 0
        invariant
            model.wf(),
            joint < model.joints@.len(),
            current <= joint,
            abs@.len() == model.joints@.len(),
            jac@.len() == model.nv,
            forall|j: int| #[trigger]
                model.supports(j, joint as int) <==> model.supports(j, current as int) || (j > current
                    && model.supports(j, joint as int)),
            forall|j: int, c: int|
                #![trigger owns(*model, j, c)]
                0 < j < model.joints@.len() && owns(*model, j, c) ==> if j > current && model.supports(
                    j,
                    joint as int,
                ) && !masked(mask@, j) {
                    column(k, *model, abs@, target, j, c, jac@[c])
                } else {
                    jac@[c] == Motion::zero()
                },
        decreases current,
    {
        let ghost before = jac@;
        let parent: usize = model.joints[current].parent;
        let left_out = test_masked(mask, current);
        if !left_out {
            write_joint_column(k, model, abs, target, current, &mut jac);
        }
        proof {
            assert(model.joints@[current as int].parent < current);
            assert forall|j: int| #[trigger] model.supports(j, joint as int) <==> model.supports(
                j,
                parent as int,
            ) || (j > parent && model.supports(j, joint as int)) by {
                if model.supports(j, current as int) {
                    crate::model::support_is_below(*model, j, current as int);
                }
                if model.supports(j, parent as int) {
                    assert(model.supports(j, current as int));
                }
            }
            assert forall|j: int, c: int| #![trigger owns(*model, j, c)]
                0 < j < model.joints@.len() && owns(*model, j, c) implies if j > parent
                && model.supports(j, joint as int) && !masked(mask@, j) {
                column(k, *model, abs@, target, j, c, jac@[c])
            } else {
                jac@[c] == Motion::zero()
            } by {
                owners_differ(*model, j, j, c);
                assert(jac@[c] == jac@[c]);
                if j == current {
                    assert(model.supports(j, current as int));
                    assert(model.supports(j, joint as int));
                } else {
                    if !left_out && owns(*model, current as int, c) {
                        owners_differ(*model, j, current as int, c);
                    }
                    assert(jac@[c] == before[c]);
                    if parent < j < current && model.supports(j, joint as int) {
                        assert(model.supports(j, current as int));
                        assert(model.supports(j, parent as int));
                        crate::model::support_is_below(*model, j, parent as int);
                    }
                }
            }
        }
        current = parent;
    }
    proof {
        assert forall|j: int, c: int| #![trigger owns(*model, j, c)]
            0 < j < model.joints@.len() && owns(*model, j, c) implies if model.supports(
            j,
            joint as int,
        ) && !masked(mask@, j) {
            column(k, *model, abs@, target, j, c, jac@[c])
        } else {
            jac@[c] == Motion::zero()
        } by {}
    }
    jac
}

/// Jacobian of a joint for joints that have been placed.
pub fn compute_joint_jacobian_from_data<K: SpatialMath>(
    k: &K,
    model: &Model,
    data: &Data,
    joint_idx: usize,
) -> (jac: Vec<Motion>)
    requires
        model.wf(),
        data.fits(*model),
        joint_idx < model.joints@.len(),
    ensures
        is_jacobian(
            k,
            *model,
            data.oMi@,
            data.oMi@[joint_idx as int].translation,
            joint_idx as int,
            Seq::empty(),
            jac@,
        ),
{
    let none: [usize; 0] = [];
    let target = data.oMi[joint_idx].translation;
    let jac = point_jacobian(k, model, &data.oMi, target, joint_idx, &none);
    assert(none@ =~= Seq::<usize>::empty());
    jac
}

/// Whether `jac` is the Jacobian of a joint for a configuration.
pub open spec fn joint_jacobian<K: SpatialMath>(
    k: &K,
    m: Model,
    q: Seq<Real>,
    joint: int,
    mask: Seq<usize>,
    jac: Seq<Motion>,
) -> bool {
    exists|d: Data|
        {
            &&& d.fits(m)
            &&& #[trigger] fk::all_placed(k, m, q, d)
            &&& is_jacobian(k, m, d.oMi@, d.oMi@[joint].translation, joint, mask, jac)
        }
}

/// Jacobian of a joint: what each number of the velocity does to its origin, as seen in
/// the world.
pub fn compute_joint_jacobian<K: SpatialMath>(k: &K, model: &Model, q: &[Real], joint_idx: usize) -> (jac: Vec<
    Motion,
>)
    requires
        model.wf(),
        q@.len() == model.nq,
        0 < joint_idx < model.joints@.len(),
    ensures
        joint_jacobian(k, *model, q@, joint_idx as int, Seq::empty(), jac@),
{
    let data = forward_kinematics(k, model, q);
    compute_joint_jacobian_from_data(k, model, &data, joint_idx)
}

/// Jacobian of a joint without the joints of the mask, for joints that have been placed.
pub fn compute_masked_jacobian_from_data<K: SpatialMath>(
    k: &K,
    model: &Model,
    data: &Data,
    joint_idx: usize,
    mask: &[usize],
) -> (jac: Vec<Motion>)
    requires
        model.wf(),
        data.fits(*model),
        joint_idx < model.joints@.len(),
    ensures
        is_jacobian(
            k,
            *model,
            data.oMi@,
            data.oMi@[joint_idx as int].translation,
            joint_idx as int,
            mask@,
            jac@,
        ),
{
    let target = data.oMi[joint_idx].translation;
    point_jacobian(k, model, &data.oMi, target, joint_idx, mask)
}

/// Jacobian of a joint with the columns of the masked joints set to zero.
pub fn compute_masked_jacobian<K: SpatialMath>(
    k: &K,
    model: &Model,
    q: &[Real],
    joint_idx: usize,
    mask: &[usize],
) -> (jac: Vec<Motion>)
    requires
        model.wf(),
        q@.len() == model.nq,
        joint_idx < model.joints@.len(),
    ensures
        joint_jacobian(k, *model, q@, joint_idx as int, mask@, jac@),
{
    let data = forward_kinematics(k, model, q);
    compute_masked_jacobian_from_data(k, model, &data, joint_idx, mask)
}

/// Whether `r` is `a` minus `b`, column by column.
pub open spec fn columns_differ_by<K: SpatialMath>(k: &K, a: Seq<Motion>, b: Seq<Motion>, r: Seq<Motion>) -> bool {
    &&& r.len() == a.len()
    &&& forall|c: int|
        0 <= c < r.len() ==> call_ensures(K::motion_difference, (k, a[c], b[c]), #[trigger] r[c])
}

/// Subtracts columns from columns.
pub fn subtract_columns<K: SpatialMath>(k: &K, a: &Vec<Motion>, b: &Vec<Motion>) -> (r: Vec<Motion>)
    requires
        a@.len() == b@.len(),
    ensures
        columns_differ_by(k, a@, b@, r@),
{
    let mut r: Vec<Motion> = Vec::new();
    for c in 0..a.len()
        invariant
            a@.len() == b@.len(),
            r@.len() == c,
            forall|x: int|
                0 <= x < c ==> call_ensures(K::motion_difference, (k, a@[x], b@[x]), #[trigger] r@[x]),
    {
        r.push(k.motion_difference(a[c], b[c]));
    }
    r
}

/// Whether `jac` is the Jacobian of `ee` minus that of `base`, both for one placement of
/// the joints.
pub open spec fn relative_jacobian<K: SpatialMath>(
    k: &K,
    m: Model,
    abs: Seq<Placement>,
    base: int,
    ee: int,
    mask: Seq<usize>,
    jac: Seq<Motion>,
) -> bool {
    exists|e: Seq<Motion>, b: Seq<Motion>|
        {
            &&& #[trigger] is_jacobian(k, m, abs, abs[ee].translation, ee, mask, e)
            &&& #[trigger] is_jacobian(k, m, abs, abs[base].translation, base, mask, b)
            &&& columns_differ_by(k, e, b, jac)
        }
}

/// Jacobian of `ee_idx` relative to `base_idx` without the joints of the mask, for joints
/// that have been placed.
pub fn compute_relative_masked_jacobian_from_data<K: SpatialMath>(
    k: &K,
    model: &Model,
    data: &Data,
    base_idx: usize,
    ee_idx: usize,
    mask: &[usize],
) -> (jac: Vec<Motion>)
    requires
        model.wf(),
        data.fits(*model),
        base_idx < model.joints@.len(),
        ee_idx < model.joints@.len(),
    ensures
        relative_jacobian(k, *model, data.oMi@, base_idx as int, ee_idx as int, mask@, jac@),
{
    let e = compute_masked_jacobian_from_data(k, model, data, ee_idx, mask);
    let b = compute_masked_jacobian_from_data(k, model, data, base_idx, mask);
    let r = subtract_columns(k, &e, &b);
    assert(is_jacobian(
        k,
        *model,
        data.oMi@,
        data.oMi@[ee_idx as int].translation,
        ee_idx as int,
        mask@,
        e@,
    ));
    r
}

/// Jacobian of `ee_idx` relative to `base_idx` for joints that have been placed.
pub fn compute_relative_jacobian_from_data<K: SpatialMath>(
    k: &K,
    model: &Model,
    data: &Data,
    base_idx: usize,
    ee_idx: usize,
) -> (jac: Vec<Motion>)
    requires
        model.wf(),
        data.fits(*model),
        base_idx < model.joints@.len(),
        ee_idx < model.joints@.len(),
    ensures
        relative_jacobian(
            k,
            *model,
            data.oMi@,
            base_idx as int,
            ee_idx as int,
            Seq::empty(),
            jac@,
        ),
{
    let none: [usize; 0] = [];
    assert(none@ =~= Seq::<usize>::empty());
    compute_relative_masked_jacobian_from_data(k, model, data, base_idx, ee_idx, &none)
}

/// Jacobian of `ee_idx` relative to `base_idx`.
pub fn compute_relative_jacobian<K: SpatialMath>(
    k: &K,
    model: &Model,
    q: &[Real],
    base_idx: usize,
    ee_idx: usize,
) -> (jac: Vec<Motion>)
    requires
        model.wf(),
        q@.len() == model.nq,
        0 < base_idx < model.joints@.len(),
        0 < ee_idx < model.joints@.len(),
    ensures
        exists|d: Data|
            {
                &&& d.fits(*model)
                &&& #[trigger] fk::all_placed(k, *model, q@, d)
                &&& relative_jacobian(
                    k,
                    *model,
                    d.oMi@,
                    base_idx as int,
                    ee_idx as int,
                    Seq::empty(),
                    jac@,
                )
            },
{
    let data = forward_kinematics(k, model, q);
    compute_relative_jacobian_from_data(k, model, &data, base_idx, ee_idx)
}

/// Jacobian of `ee_idx` relative to `base_idx` without the joints of the mask.
pub fn compute_relative_masked_jacobian<K: SpatialMath>(
    k: &K,
    model: &Model,
    q: &[Real],
    base_idx: usize,
    ee_idx: usize,
    mask: &[usize],
) -> (jac: Vec<Motion>)
    requires
        model.wf(),
        q@.len() == model.nq,
        base_idx < model.joints@.len(),
        ee_idx < model.joints@.len(),
    ensures
        exists|d: Data|
            {
                &&& d.fits(*model)
                &&& #[trigger] fk::all_placed(k, *model, q@, d)
                &&& relative_jacobian(k, *model, d.oMi@, base_idx as int, ee_idx as int, mask@, jac@)
            },
{
    let data = forward_kinematics(k, model, q);
    compute_relative_masked_jacobian_from_data(k, model, &data, base_idx, ee_idx, mask)
}

/// Whether `local` is the Jacobian `world`, both parts of each column turned into the frame `x`.
pub open spec fn seen_from<K: PoseMath>(k: &K, x: Placement, world: Seq<Motion>, local: Seq<Motion>) -> bool {
    &&& local.len() == world.len()
    &&& forall|c: int|
        0 <= c < local.len() ==> pose::turned_back(k, x, world[c], #[trigger] local[c])
}

/// Whether `jac` is the Jacobian of a joint as seen in its own frame.
pub open spec fn local_jacobian<K: SpatialMath + PoseMath>(
    k: &K,
    m: Model,
    abs: Seq<Placement>,
    joint: int,
    jac: Seq<Motion>,
) -> bool {
    exists|world: Seq<Motion>|
        {
            &&& #[trigger] is_jacobian(k, m, abs, abs[joint].translation, joint, Seq::empty(), world)
            &&& seen_from(k, abs[joint], world, jac)
        }
}

/// Jacobian of a joint as seen in its own frame, for joints that have been placed.
pub fn compute_joint_jacobian_local_from_data<K: SpatialMath + PoseMath>(
    k: &K,
    model: &Model,
    data: &Data,
    joint_idx: usize,
) -> (jac: Vec<Motion>)
    requires
        model.wf(),
        data.fits(*model),
        joint_idx < model.joints@.len(),
    ensures
        local_jacobian(k, *model, data.oMi@, joint_idx as int, jac@),
{
    let world = compute_joint_jacobian_from_data(k, model, data, joint_idx);
    let x = data.oMi[joint_idx];
    let mut r: Vec<Motion> = Vec::new();
    for c in 0..world.len()
        invariant
            r@.len() == c,
            forall|i: int|
                0 <= i < c ==> pose::turned_back(k, x, world@[i], #[trigger] r@[i]),
    {
        r.push(turn_back(k, x, world[c]));
    }
    r
}

/// Jacobian of a joint as seen in its own frame.
pub fn compute_joint_jacobian_local<K: SpatialMath + PoseMath>(
    k: &K,
    model: &Model,
    q: &[Real],
    joint_idx: usize,
) -> (jac: Vec<Motion>)
    requires
        model.wf(),
        q@.len() == model.nq,
        joint_idx < model.joints@.len(),
    ensures
        exists|d: Data|
            {
                &&& d.fits(*model)
                &&& #[trigger] fk::all_placed(k, *model, q@, d)
                &&& local_jacobian(k, *model, d.oMi@, joint_idx as int, jac@)
            },
{
    let data = forward_kinematics(k, model, q);
    compute_joint_jacobian_local_from_data(k, model, &data, joint_idx)
}

/// Every number of the velocity belongs to a joint, which is not the world.
pub proof fn columns_have_owners(m: Model, c: int) -> (j: int)
    requires
        m.wf(),
        0 <= c < m.nv,
    ensures
        0 < j < m.joints@.len(),
        owns(m, j, c),
{
    let j = owner_among(m, c, m.joints@.len() as int);
    assert(m.kind(0).nv() == 0);
    j
}

proof fn owner_among(m: Model, c: int, n: int) -> (j: int)
    requires
        m.wf(),
        0 <= n <= m.joints@.len(),
        0 <= c < crate::model::nv_before(m.joints@, n),
    ensures
        0 <= j < n,
        owns(m, j, c),
    decreases n,
{
    if c < crate::model::nv_before(m.joints@, n - 1) {
        owner_among(m, c, n - 1)
    } else {
        assert(m.v_idx@[n - 1] == crate::model::nv_before(m.joints@, n - 1));
        n - 1
    }
}

/// The Jacobian of a point is the same each time, as far as its columns are computed alike.
pub proof fn jacobians_repeat_themselves<K: SpatialMath>(
    k: &K,
    m: Model,
    abs: Seq<Placement>,
    target: Vector3,
    joint: int,
    mask: Seq<usize>,
    a: Seq<Motion>,
    b: Seq<Motion>,
)
    requires
        m.wf(),
        spatial::columns_alike(k),
        is_jacobian(k, m, abs, target, joint, mask, a),
        is_jacobian(k, m, abs, target, joint, mask, b),
    ensures
        a == b,
{
    assert forall|c: int| 0 <= c < m.nv implies a[c] == b[c] by {
        let j = columns_have_owners(m, c);
        assert(owns(m, j, c));
        if m.supports(j, joint) && !masked(mask, j) {
            assert(column(k, m, abs, target, j, c, a[c]));
            assert(column(k, m, abs, target, j, c, b[c]));
        }
    }
    assert(a =~= b);
}

/// A masked joint contributes nothing, nor does one that is not on the way to the world.
pub proof fn masked_columns_vanish<K: SpatialMath>(
    k: &K,
    m: Model,
    abs: Seq<Placement>,
    target: Vector3,
    joint: int,
    mask: Seq<usize>,
    jac: Seq<Motion>,
    j: int,
    c: int,
)
    requires
        m.wf(),
        is_jacobian(k, m, abs, target, joint, mask, jac),
        0 < j < m.joints@.len(),
        owns(m, j, c),
        masked(mask, j) || !m.supports(j, joint),
    ensures
        jac[c] == Motion::zero(),
{
}

/// A mask that names no joint changes nothing.
pub proof fn empty_mask_is_no_mask<K: SpatialMath>(
    k: &K,
    m: Model,
    abs: Seq<Placement>,
    target: Vector3,
    joint: int,
    mask: Seq<usize>,
    jac: Seq<Motion>,
)
    requires
        forall|j: int| 0 < j < m.joints@.len() ==> !#[trigger] masked(mask, j),
    ensures
        is_jacobian(k, m, abs, target, joint, mask, jac) == is_jacobian(
            k,
            m,
            abs,
            target,
            joint,
            Seq::empty(),
            jac,
        ),
{
    assert forall|j: int| 0 < j < m.joints@.len() implies !masked(Seq::<usize>::empty(), j) by {}
}

/// Time step of finite differences: 1e-6.
pub const EPSILON: u64 = 0x3eb0c6f7a0b5ed8d;

/// Twice the time step.
pub const TWO_EPSILON: u64 = 0x3ec0c6f7a0b5ed8d;

/// Whether `a` and `b` are the configurations shortly after and shortly before `q` on the
/// way with velocity `v`.
pub open spec fn around<K: SpatialMath + FreeMotion>(
    k: &K,
    m: Model,
    q: Seq<Real>,
    v: Seq<Real>,
    a: Seq<Real>,
    b: Seq<Real>,
) -> bool {
    let step = Real { bits: EPSILON };
    manifold::integrated(k, m, q, v, step, a) && manifold::integrated(k, m, q, v, step.negated(), b)
}

/// Whether `r` is the change from `b` to `a` for each unit of time.
pub open spec fn change_rate<K: SpatialMath>(k: &K, a: Motion, b: Motion, r: Motion) -> bool {
    exists|d: Motion| #[trigger]
        call_ensures(K::motion_difference, (k, a, b), d) && call_ensures(
            K::motion_quotient,
            (k, d, Real { bits: TWO_EPSILON }),
            r,
        )
}

fn rate<K: SpatialMath>(k: &K, a: Motion, b: Motion) -> (r: Motion)
    ensures
        change_rate(k, a, b, r),
{
    let d = k.motion_difference(a, b);
    assert(call_ensures(K::motion_difference, (k, a, b), d));
    k.motion_quotient(d, Real { bits: TWO_EPSILON })
}

/// Time derivative of the Jacobian of a joint, by central differences along the velocity.
pub fn compute_joint_jacobian_time_derivative<K: SpatialMath + FreeMotion>(
    k: &K,
    model: &Model,
    q: &[Real],
    v: &[Real],
    joint_idx: usize,
) -> (r: Vec<Motion>)
    requires
        model.wf(),
        q@.len() == model.nq,
        v@.len() == model.nv,
        0 < joint_idx < model.joints@.len(),
    ensures
        r@.len() == model.nv,
        exists|qa: Seq<Real>, qb: Seq<Real>, a: Seq<Motion>, b: Seq<Motion>|
            {
                &&& #[trigger] around(k, *model, q@, v@, qa, qb)
                &&& #[trigger] joint_jacobian(k, *model, qa, joint_idx as int, Seq::empty(), a)
                &&& #[trigger] joint_jacobian(k, *model, qb, joint_idx as int, Seq::empty(), b)
                &&& forall|c: int| 0 <= c < model.nv ==> change_rate(k, a[c], b[c], #[trigger] r@[c])
            },
{
    let step = Real { bits: EPSILON };
    let qa = integrate(k, model, q, v, step);
    let qb = integrate(k, model, q, v, step.neg());
    let a = compute_joint_jacobian(k, model, qa.as_slice(), joint_idx);
    let b = compute_joint_jacobian(k, model, qb.as_slice(), joint_idx);
    let mut r: Vec<Motion> = Vec::new();
    for c in 0..model.nv
        invariant
            a@.len() == model.nv,
            b@.len() == model.nv,
            r@.len() == c,
            forall|x: int| 0 <= x < c ==> change_rate(k, a@[x], b@[x], #[trigger] r@[x]),
    {
        r.push(rate(k, a[c], b[c]));
    }
    assert(around(k, *model, q@, v@, qa@, qb@));
    assert(joint_jacobian(k, *model, qa@, joint_idx as int, Seq::empty(), a@));
    assert(joint_jacobian(k, *model, qb@, joint_idx as int, Seq::empty(), b@));
    r
}

/// Acceleration of a joint at constant velocity, by central differences along the velocity.
pub fn compute_jacobian_dot_times_v<K: SpatialMath + FreeMotion>(
    k: &K,
    model: &Model,
    q: &[Real],
    v: &[Real],
    joint_idx: usize,
) -> (r: Motion)
    requires
        model.wf(),
        q@.len() == model.nq,
        v@.len() == model.nv,
        0 < joint_idx < model.joints@.len(),
    ensures
        exists|
            qa: Seq<Real>,
            qb: Seq<Real>,
            a: Seq<Motion>,
            b: Seq<Motion>,
            va: Motion,
            vb: Motion,
        |
            {
                &&& #[trigger] around(k, *model, q@, v@, qa, qb)
                &&& #[trigger] joint_jacobian(k, *model, qa, joint_idx as int, Seq::empty(), a)
                &&& #[trigger] joint_jacobian(k, *model, qb, joint_idx as int, Seq::empty(), b)
                &&& #[trigger] spatial::combination(k, a, v@, 0, model.nv as int, va)
                &&& #[trigger] spatial::combination(k, b, v@, 0, model.nv as int, vb)
                &&& change_rate(k, va, vb, r)
            },
{
    let step = Real { bits: EPSILON };
    let qa = integrate(k, model, q, v, step);
    let qb = integrate(k, model, q, v, step.neg());
    let a = compute_joint_jacobian(k, model, qa.as_slice(), joint_idx);
    let b = compute_joint_jacobian(k, model, qb.as_slice(), joint_idx);
    let va = combine(k, &a, v, 0);
    let vb = combine(k, &b, v, 0);
    assert(around(k, *model, q@, v@, qa@, qb@));
    assert(joint_jacobian(k, *model, qa@, joint_idx as int, Seq::empty(), a@));
    assert(joint_jacobian(k, *model, qb@, joint_idx as int, Seq::empty(), b@));
    assert(spatial::combination(k, a@, v@, 0, model.nv as int, va));
    assert(spatial::combination(k, b@, v@, 0, model.nv as int, vb));
    rate(k, va, vb)
}

} // verus!
