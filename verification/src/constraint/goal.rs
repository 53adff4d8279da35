//! Tasks that are pursued along with constraints.

use vstd::prelude::*;
use crate::constraint::error;
use crate::fk;
use crate::frames;
use crate::jacobian;
use crate::matrix;
use crate::pose;
use crate::constraint::error::compute_constraint_error_from_data;
use crate::constraint::types::ConstraintModel;
use crate::data::Data;
use crate::fk::forward_kinematics;
use crate::frames::{compute_frame_jacobian_from_data, compute_frame_placement_from_data, Frame};
use crate::jacobian::compute_joint_jacobian_from_data;
use crate::matrix::{length, Matrix};
use crate::model::Model;
use crate::number::{Real, Vector3};
use crate::pose::{turn, RobotMath};
use crate::spatial;
use crate::spatial::{component, Motion, Placement};

verus! {

/// A task that is pursued along with constraints.
pub enum Goal<'a> {
    /// Nothing but the constraints.
    Constraints,
    /// The origin of a joint has to reach a point.
    Point { joint: usize, target: Vector3 },
    /// A frame has to reach a pose.
    Pose { frame: &'a Frame, pose: Placement },
}

impl<'a> Goal<'a> {
    /// Whether the goal is on a joint below `n`.
    pub open spec fn fits(self, n: int) -> bool {
        match self {
            Goal::Constraints => true,
            Goal::Point { joint, target } => joint < n,
            Goal::Pose { frame, pose } => frame.parent_joint < n,
        }
    }

    /// Number of rows of the task.
    pub open spec fn height(self) -> int {
        match self {
            Goal::Constraints => 0,
            Goal::Point { joint, target } => 3,
            Goal::Pose { frame, pose } => 6,
        }
    }
}

/// What is measured of a task and constraints.
pub struct Measured {
    pub data: Data,
    /// How far the task is from its goal.
    pub task: Vec<Real>,
    /// How far the constraints are from being met.
    pub errors: Vec<Real>,
    pub task_norm: Real,
    pub error_norm: Real,
}

/// Whether `e` is how far a frame placed at `m` is from the target, as seen in the world.
pub open spec fn pose_distance<K: RobotMath>(k: &K, m: Placement, target: Placement, e: Motion) -> bool {
    exists|back: Placement, rel: Placement, log: Motion|
        {
            &&& #[trigger] call_ensures(K::inverse, (k, m), back)
            &&& #[trigger] call_ensures(K::compose, (k, back, target), rel)
            &&& #[trigger] call_ensures(K::log, (k, rel), log)
            &&& pose::turned(k, m, log, e)
        }
}

/// Whether `e` is how far a task is from its goal.
pub open spec fn goal_error<'a, K: RobotMath>(k: &K, d: Data, goal: Goal<'a>, e: Seq<Real>) -> bool {
    match goal {
        Goal::Constraints => e.len() == 0,
        Goal::Point { joint, target } => exists|x: Vector3|
            e == #[trigger] error::three(x) && call_ensures(
                K::offset,
                (k, target, d.oMi@[joint as int].translation),
                x,
            ),
        Goal::Pose { frame, pose } => exists|m: Placement, x: Motion|
            {
                &&& #[trigger] call_ensures(
                    K::compose,
                    (k, d.oMi@[frame.parent_joint as int], frame.placement),
                    m,
                )
                &&& e == #[trigger] spatial::six_of(x)
                &&& pose_distance(k, m, pose, x)
            },
    }
}

fn compute_goal_error<'a, K: RobotMath>(k: &K, d: &Data, goal: &Goal<'a>) -> (e: Vec<Real>)
    requires
        goal.fits(d.oMi@.len() as int),
    ensures
        e@.len() == goal.height(),
        goal_error(k, *d, *goal, e@),
{
    let mut e: Vec<Real> = Vec::new();
    match goal {
        Goal::Constraints => {},
        Goal::Point { joint, target } => {
            let x = k.offset(*target, d.oMi[*joint].translation);
            e.push(x.x);
            e.push(x.y);
            e.push(x.z);
            assert(e@ =~= error::three(x));
        },
        Goal::Pose { frame, pose } => {
            let m = compute_frame_placement_from_data(k, d, frame);
            let back = k.inverse(m);
            let rel = k.compose(back, *pose);
            let log = k.log(rel);
            assert(call_ensures(K::inverse, (k, m), back));
            assert(call_ensures(K::compose, (k, back, *pose), rel));
            assert(call_ensures(K::log, (k, rel), log));
            let x = turn(k, m, log);
            e.push(x.angular.x);
            e.push(x.angular.y);
            e.push(x.angular.z);
            e.push(x.linear.x);
            e.push(x.linear.y);
            e.push(x.linear.z);
            assert(e@ =~= spatial::six_of(x));
            assert(pose_distance(k, m, *pose, x));
        },
    }
    e
}

/// Whether `r` holds the numbers of the columns from the `first` on, one row for each.
pub open spec fn rows_from(columns: Seq<Motion>, first: int, r: Matrix) -> bool {
    &&& r.sized(6 - first, columns.len() as int)
    &&& forall|t: int, c: int|
        0 <= t < 6 - first && 0 <= c < columns.len() ==> #[trigger] r.at(t, c) == spatial::six_of(
            columns[c],
        )[first + t]
}

/// The numbers of the columns from the `first` on, one row for each.
pub fn take_rows(columns: &Vec<Motion>, first: usize) -> (r: Matrix)
    requires
        first <= 6,
    ensures
        rows_from(columns@, first as int, r),
{
    let width: usize = columns.len();
    let mut rows: Vec<Vec<Real>> = Vec::new();
    for t in first..6
        invariant
            first <= 6,
            width == columns@.len(),
            rows@.len() == t - first,
            forall|x: int| 0 <= x < t - first ==> (#[trigger] rows@[x])@.len() == width,
            forall|x: int, c: int|
                0 <= x < t - first && 0 <= c < width ==> #[trigger] rows@[x]@[c] == spatial::six_of(
                    columns@[c],
                )[first + x],
    {
        let mut row: Vec<Real> = Vec::new();
        for c in 0..width
            invariant
                t < 6,
                width == columns@.len(),
                row@.len() == c,
                forall|x: int| 0 <= x < c ==> #[trigger] row@[x] == spatial::six_of(columns@[x])[t as int],
        {
            row.push(component(columns[c], t));
        }
        rows.push(row);
    }
    Matrix { rows, cols: width }
}

/// Whether `r` is the Jacobian of a task.
pub open spec fn goal_rows<'a, K: RobotMath>(k: &K, m: Model, d: Data, goal: Goal<'a>, r: Matrix) -> bool {
    match goal {
        Goal::Constraints => r.sized(0, m.nv as int),
        Goal::Point { joint, target } => exists|jac: Seq<Motion>|
            {
                &&& #[trigger] jacobian::is_jacobian(
                    k,
                    m,
                    d.oMi@,
                    d.oMi@[joint as int].translation,
                    joint as int,
                    Seq::empty(),
                    jac,
                )
                &&& rows_from(jac, 3, r)
            },
        Goal::Pose { frame, pose } => exists|jac: Seq<Motion>|
            {
                &&& #[trigger] frames::frame_jacobian(k, m, d, *frame, jac)
                &&& rows_from(jac, 0, r)
            },
    }
}

/// Jacobian of a task.
pub fn compute_goal_rows<'a, K: RobotMath>(k: &K, model: &Model, d: &Data, goal: &Goal<'a>) -> (r: Matrix)
    requires
        model.wf(),
        d.fits(*model),
        goal.fits(model.joints@.len() as int),
    ensures
        r.sized(goal.height(), model.nv as int),
        goal_rows(k, *model, *d, *goal, r),
{
    match goal {
        Goal::Constraints => Matrix { rows: Vec::new(), cols: model.nv },
        Goal::Point { joint, target } => {
            let jac = compute_joint_jacobian_from_data(k, model, d, *joint);
            take_rows(&jac, 3)
        },
        Goal::Pose { frame, pose } => {
            let jac = compute_frame_jacobian_from_data(k, model, d, frame);
            take_rows(&jac, 0)
        },
    }
}

/// Whether `s` is what is measured of a task and constraints at a configuration.
pub open spec fn is_measured<'a, K: RobotMath>(
    k: &K,
    m: Model,
    cm: ConstraintModel,
    goal: Goal<'a>,
    q: Seq<Real>,
    s: Measured,
) -> bool {
    &&& s.data.fits(m)
    &&& fk::all_placed(k, m, q, s.data)
    &&& s.task@.len() == goal.height()
    &&& goal_error(k, s.data, goal, s.task@)
    &&& s.errors@.len() == cm.height()
    &&& error::stacked_errors(k, s.data, cm.constraints@, cm.constraints@.len() as int, s.errors@)
    &&& matrix::length_of(k, s.errors@, s.error_norm)
    &&& match goal {
        Goal::Constraints => s.task_norm == Real::zero(),
        _ => matrix::length_of(k, s.task@, s.task_norm),
    }
}

/// Measures a task and constraints at a configuration.
pub fn measure_goal<'a, K: RobotMath>(
    k: &K,
    model: &Model,
    cm: &ConstraintModel,
    goal: &Goal<'a>,
    q: &Vec<Real>,
) -> (s: Measured)
    requires
        model.wf(),
        q@.len() == model.nq,
        cm.fits(model.joints@.len() as int),
        goal.fits(model.joints@.len() as int),
    ensures
        is_measured(k, *model, *cm, *goal, q@, s),
{
    let data = forward_kinematics(k, model, q.as_slice());
    let task = compute_goal_error(k, &data, goal);
    let errors = compute_constraint_error_from_data(k, &data, cm);
    let error_norm = length(k, &errors);
    let task_norm = match goal {
        Goal::Constraints => Real::zero(),
        _ => length(k, &task),
    };
    Measured { data, task, errors, task_norm, error_norm }
}

} // verus!
