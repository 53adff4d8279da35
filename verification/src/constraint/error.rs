//! How far constraints are from being met.

use vstd::prelude::*;
use crate::constraint::types;
use crate::fk;
use crate::pose;
use crate::centroidal::MassMath;
use crate::constraint::types::{ConstraintModel, ConstraintType, ReferenceFrame, RigidConstraint};
use crate::data::Data;
use crate::fk::forward_kinematics;
use crate::frames::compute_frame_placement_from_data;
use crate::model::Model;
use crate::number::{Real, Vector3};
use crate::pose::{turn, PoseMath};
use crate::spatial;
use crate::spatial::{Motion, Placement, SpatialMath};

verus! {

/// The three numbers of a vector.
pub open spec fn three(v: Vector3) -> Seq<Real> {
    seq![v.x, v.y, v.z]
}

/// Whether `e` is `log(M1⁻¹ M2 Mdes⁻¹)`, as seen in the frame of reference.
pub open spec fn pose_error<K: SpatialMath + PoseMath>(
    k: &K,
    m1: Placement,
    m2: Placement,
    desired: Placement,
    frame: ReferenceFrame,
    e: Motion,
) -> bool {
    exists|back: Placement, rel: Placement, undo: Placement, off: Placement, log: Motion|
        {
            &&& #[trigger] call_ensures(K::inverse, (k, m1), back)
            &&& #[trigger] call_ensures(K::compose, (k, back, m2), rel)
            &&& #[trigger] call_ensures(K::inverse, (k, desired), undo)
            &&& #[trigger] call_ensures(K::compose, (k, rel, undo), off)
            &&& #[trigger] call_ensures(K::log, (k, off), log)
            &&& match frame {
                ReferenceFrame::World => pose::turned(k, m1, log, e),
                ReferenceFrame::Local => e == log,
            }
        }
}

fn compute_pose_error_6d<K: SpatialMath + PoseMath>(
    k: &K,
    m1: Placement,
    m2: Placement,
    desired: Placement,
    frame: ReferenceFrame,
) -> (e: Motion)
    ensures
        pose_error(k, m1, m2, desired, frame, e),
{
    let back = k.inverse(m1);
    let rel = k.compose(back, m2);
    let undo = k.inverse(desired);
    let off = k.compose(rel, undo);
    let log = k.log(off);
    assert(call_ensures(K::inverse, (k, m1), back));
    assert(call_ensures(K::compose, (k, back, m2), rel));
    assert(call_ensures(K::inverse, (k, desired), undo));
    assert(call_ensures(K::compose, (k, rel, undo), off));
    assert(call_ensures(K::log, (k, off), log));
    match frame {
        ReferenceFrame::World => turn(k, m1, log),
        ReferenceFrame::Local => log,
    }
}

/// Whether `e` is how far the second origin is from where it has to be, as seen in the
/// frame of reference.
pub open spec fn position_error<K: MassMath + PoseMath>(
    k: &K,
    m1: Placement,
    m2: Placement,
    desired: Placement,
    frame: ReferenceFrame,
    e: Vector3,
) -> bool {
    exists|expected: Vector3, off: Vector3|
        {
            &&& #[trigger] call_ensures(K::world_point, (k, m1, desired.translation), expected)
            &&& #[trigger] call_ensures(K::offset, (k, m2.translation, expected), off)
            &&& match frame {
                ReferenceFrame::World => e == off,
                ReferenceFrame::Local => call_ensures(K::rotate_back, (k, m1, off), e),
            }
        }
}

fn compute_position_error_3d<K: MassMath + PoseMath>(
    k: &K,
    m1: Placement,
    m2: Placement,
    desired: Placement,
    frame: ReferenceFrame,
) -> (e: Vector3)
    ensures
        position_error(k, m1, m2, desired, frame, e),
{
    let expected = k.world_point(m1, desired.translation);
    let off = k.offset(m2.translation, expected);
    assert(call_ensures(K::world_point, (k, m1, desired.translation), expected));
    assert(call_ensures(K::offset, (k, m2.translation, expected), off));
    match frame {
        ReferenceFrame::World => off,
        ReferenceFrame::Local => k.rotate_back(m1, off),
    }
}

/// Whether `e` are the numbers of the error of a constraint.
pub open spec fn constraint_error<K: SpatialMath + MassMath + PoseMath>(
    k: &K,
    d: Data,
    c: RigidConstraint,
    e: Seq<Real>,
) -> bool {
    exists|m1: Placement, m2: Placement|
        {
            &&& #[trigger] call_ensures(
                K::compose,
                (k, d.oMi@[c.frame1.parent_joint as int], c.frame1.placement),
                m1,
            )
            &&& #[trigger] call_ensures(
                K::compose,
                (k, d.oMi@[c.frame2.parent_joint as int], c.frame2.placement),
                m2,
            )
            &&& match c.constraint_type {
                ConstraintType::Contact6D => exists|x: Motion|
                    e == #[trigger] spatial::six_of(x) && pose_error(
                        k,
                        m1,
                        m2,
                        c.desired_relative_placement,
                        c.reference_frame,
                        x,
                    ),
                ConstraintType::Contact3D => exists|x: Vector3|
                    e == #[trigger] three(x) && position_error(
                        k,
                        m1,
                        m2,
                        c.desired_relative_placement,
                        c.reference_frame,
                        x,
                    ),
            }
        }
}

/// Whether the numbers of constraint `i` in `e` are those of its error.
pub open spec fn error_at<K: SpatialMath + MassMath + PoseMath>(
    k: &K,
    d: Data,
    cs: Seq<RigidConstraint>,
    i: int,
    e: Seq<Real>,
) -> bool {
    constraint_error(k, d, cs[i], e.subrange(types::rows_before(cs, i), types::rows_before(cs, i + 1)))
}

/// Whether `e` are the errors of the first `n` constraints, one behind the other.
pub open spec fn stacked_errors<K: SpatialMath + MassMath + PoseMath>(
    k: &K,
    d: Data,
    cs: Seq<RigidConstraint>,
    n: int,
    e: Seq<Real>,
) -> bool {
    &&& e.len() == types::rows_before(cs, n)
    &&& forall|i: int|
        0 <= i < n ==> #[trigger] error_at(k, d, cs, i, e)
}

fn push_error<K: SpatialMath + MassMath + PoseMath>(k: &K, d: &Data, c: &RigidConstraint, err: &mut Vec<Real>)
    requires
        c.frame1.parent_joint < d.oMi@.len(),
        c.frame2.parent_joint < d.oMi@.len(),
    ensures
        final(err)@.len() == old(err)@.len() + c.constraint_type.dim(),
        final(err)@.take(old(err)@.len() as int) == old(err)@,
        constraint_error(k, *d, *c, final(err)@.skip(old(err)@.len() as int)),
{
    let ghost start = err@;
    let m1 = compute_frame_placement_from_data(k, d, &c.frame1);
    let m2 = compute_frame_placement_from_data(k, d, &c.frame2);
    assert(call_ensures(
        K::compose,
        (k, d.oMi@[c.frame1.parent_joint as int], c.frame1.placement),
        m1,
    ));
    assert(call_ensures(
        K::compose,
        (k, d.oMi@[c.frame2.parent_joint as int], c.frame2.placement),
        m2,
    ));
    match c.constraint_type {
        ConstraintType::Contact6D => {
            let e = compute_pose_error_6d(
                k,
                m1,
                m2,
                c.desired_relative_placement,
                c.reference_frame,
            );
            err.push(e.angular.x);
            err.push(e.angular.y);
            err.push(e.angular.z);
            err.push(e.linear.x);
            err.push(e.linear.y);
            err.push(e.linear.z);
            assert(err@.skip(start.len() as int) =~= spatial::six_of(e));
        },
        ConstraintType::Contact3D => {
            let e = compute_position_error_3d(
                k,
                m1,
                m2,
                c.desired_relative_placement,
                c.reference_frame,
            );
            err.push(e.x);
            err.push(e.y);
            err.push(e.z);
            assert(err@.skip(start.len() as int) =~= three(e));
        },
    }
    assert(err@.take(start.len() as int) =~= start);
}

/// Errors of all constraints, for joints that have been placed.
pub fn compute_constraint_error_from_data<K: SpatialMath + MassMath + PoseMath>(
    k: &K,
    data: &Data,
    cm: &ConstraintModel,
) -> (err: Vec<Real>)
    requires
        cm.fits(data.oMi@.len() as int),
    ensures
        err@.len() == cm.height(),
        stacked_errors(k, *data, cm.constraints@, cm.constraints@.len() as int, err@),
{
    let mut err: Vec<Real> = Vec::new();
    for i in 0..cm.constraints.len()
        invariant
            cm.fits(data.oMi@.len() as int),
            stacked_errors(k, *data, cm.constraints@, i as int, err@),
    {
        let ghost cs = cm.constraints@;
        let ghost before = err@;
        assert(cs[i as int].frame1.parent_joint < data.oMi@.len());
        push_error(k, data, &cm.constraints[i], &mut err);
        assert forall|j: int| 0 <= j < i + 1 implies #[trigger] error_at(k, *data, cs, j, err@) by {
            crate::constraint::types::rows_are_monotone(cs, j + 1, i as int + 1);
            crate::constraint::types::rows_are_monotone(cs, 0, j);
            if j < i {
                crate::constraint::types::rows_are_monotone(cs, j + 1, i as int);
                assert(error_at(k, *data, cs, j, before));
                assert(err@.subrange(types::rows_before(cs, j), types::rows_before(cs, j + 1)) =~= before.subrange(
                    types::rows_before(cs, j),
                    types::rows_before(cs, j + 1),
                )) by {
                    assert forall|x: int| 0 <= x < before.len() implies err@[x] == before[x] by {
                        assert(err@.take(before.len() as int)[x] == before[x]);
                    }
                }
            } else {
                assert(err@.subrange(types::rows_before(cs, j), types::rows_before(cs, j + 1)) =~= err@.skip(
                    before.len() as int,
                ));
            }
        }
    }
    err
}

/// Errors of all constraints at a configuration.
pub fn compute_constraint_error<K: SpatialMath + MassMath + PoseMath>(
    k: &K,
    model: &Model,
    q: &[Real],
    cm: &ConstraintModel,
) -> (err: Vec<Real>)
    requires
        model.wf(),
        q@.len() == model.nq,
        cm.fits(model.joints@.len() as int),
    ensures
        err@.len() == cm.height(),
        exists|d: Data|
            {
                &&& d.fits(*model)
                &&& #[trigger] fk::all_placed(k, *model, q@, d)
                &&& stacked_errors(k, d, cm.constraints@, cm.constraints@.len() as int, err@)
            },
{
    let data = forward_kinematics(k, model, q);
    assert(fk::all_placed(k, *model, q@, data));
    compute_constraint_error_from_data(k, &data, cm)
}

} // verus!
