//! Inverse kinematics by iteration.

use vstd::prelude::*;
use crate::collision;
use crate::constraint::error;
use crate::constraint::goal;
use crate::constraint::qp_ik;
use crate::descent;
use crate::fk;
use crate::frames;
use crate::ik_solver;
use crate::jacobian;
use crate::least_squares;
use crate::limits;
use crate::manifold;
use crate::matrix;
use crate::collision::{has_collision_acm, AllowedCollisionMatrix, CollisionPair, Proximity};
use crate::constraint::goal::take_rows;
use crate::constraint::qp_ik::keep;
use crate::data::Data;
use crate::descent::{descend, Descent, Ending, Outcome};
use crate::fk::forward_kinematics;
use crate::frames::{compute_frame_jacobian_from_data, compute_frame_placement_from_data, Frame};
use crate::geometry::GeometryModel;
use crate::ik_solver::{solver_step, Damping, JointWeights, SolverMethod};
use crate::jacobian::compute_joint_jacobian_from_data;
use crate::least_squares::scale;
use crate::limits::{saturate_velocity, JointLimits};
use crate::manifold::{integrate, normalize_configuration};
use crate::matrix::{length, Matrix};
use crate::model::Model;
use crate::number::{Real, Vector3};
use crate::pose::RobotMath;
use crate::spatial;
use crate::spatial::{Motion, Placement, SpatialMath};

verus! {

/// 1e-6.
pub const ERROR_TOLERANCE: u64 = 0x3eb0c6f7a0b5ed8d;

/// 1e-8.
pub const STEP_TOLERANCE: u64 = 0x3e45798ee2308c3a;

/// 1e-2.
pub const FIXED_DAMPING: u64 = 0x3f847ae147ae147b;

/// 0.05.
pub const MARGIN: u64 = 0x3fa999999999999a;

/// 1e-4.
pub const GRADIENT_STEP: u64 = 0x3f1a36e2eb1c432d;

/// Settings of inverse kinematics.
#[derive(Clone, Debug)]
pub struct IkConfig {
    /// Largest number of iterations.
    pub max_iters: usize,
    /// Size of the error that counts as reached.
    pub tol_error: Real,
    /// Size of a step that counts as none.
    pub tol_step: Real,
    /// Share of a step that is taken.
    pub step_size: Real,
    pub damping: Damping,
    /// Limits that configurations and steps keep within.
    pub joint_limits: Option<JointLimits>,
    pub solver_method: SolverMethod,
    /// Cost of moving each number of the velocity.
    pub joint_weights: Option<JointWeights>,
}

impl Default for IkConfig {
    fn default() -> (r: Self)
        ensures
            r == (IkConfig {
                max_iters: 100,
                tol_error: Real { bits: ERROR_TOLERANCE },
                tol_step: Real { bits: STEP_TOLERANCE },
                step_size: Real::one(),
                damping: Damping::Fixed(Real { bits: FIXED_DAMPING }),
                joint_limits: None,
                solver_method: SolverMethod::DampedLeastSquares,
                joint_weights: None,
            }),
    {
        IkConfig {
            max_iters: 100,
            tol_error: Real { bits: ERROR_TOLERANCE },
            tol_step: Real { bits: STEP_TOLERANCE },
            step_size: Real::one(),
            damping: Damping::Fixed(Real { bits: FIXED_DAMPING }),
            joint_limits: None,
            solver_method: SolverMethod::DampedLeastSquares,
            joint_weights: None,
        }
    }
}

/// How a search ended.
#[derive(Clone, Copy, PartialEq, Eq, Structural, Debug)]
pub enum IkStatus {
    Converged,
    MaxIterations,
    NumericalFailure,
}

/// Result of inverse kinematics.
#[derive(Clone, Debug)]
pub struct IkResult {
    /// The configuration that was found.
    pub q: Vec<Real>,
    /// Number of iterations.
    pub iterations: usize,
    /// Size of the error that was measured last.
    pub final_error_norm: Real,
    pub status: IkStatus,
}

/// What has to be reached.
pub enum IkTask<'a> {
    /// The origin of a joint has to reach a point.
    Position { joint: usize, point: Vector3 },
    /// A joint has to reach an orientation.
    Orientation { joint: usize, pose: Placement },
    /// A joint has to reach a pose.
    Pose { joint: usize, pose: Placement },
    /// A frame has to reach a pose.
    FramePose { frame: &'a Frame, pose: Placement },
    /// A joint has to reach a point and an orientation, with weights.
    Weighted {
        joint: usize,
        point: Vector3,
        pose: Placement,
        position_weight: Real,
        orientation_weight: Real,
    },
}

impl<'a> IkTask<'a> {
    /// Whether the task is on a joint below `n`, which is not the world.
    pub open spec fn fits(self, n: int) -> bool {
        match self {
            IkTask::Position { joint, .. } => 0 < joint < n,
            IkTask::Orientation { joint, .. } => 0 < joint < n,
            IkTask::Pose { joint, .. } => 0 < joint < n,
            IkTask::FramePose { frame, .. } => frame.parent_joint < n,
            IkTask::Weighted { joint, .. } => 0 < joint < n,
        }
    }
}

/// What is measured of tasks.
pub struct IkState {
    pub data: Data,
    /// How far the task is from its goal.
    pub e: Vec<Real>,
    pub norm: Real,
    /// Jacobian of the task.
    pub jac: Matrix,
    /// The same of a second task, if there is one.
    pub second: Option<(Vec<Real>, Matrix)>,
    /// The error that is reported.
    pub error: Real,
}

// ── Tasks ──

/// Whether `e` is how far a pose is from another: rotation first, then translation.
pub open spec fn pose_gap<K: RobotMath>(k: &K, current: Placement, target: Placement, e: Motion) -> bool {
    &&& call_ensures(K::orientation_error, (k, current, target), e.angular)
    &&& call_ensures(K::offset, (k, target.translation, current.translation), e.linear)
}

/// Whether `r` is a vector times a number.
pub open spec fn times<K: SpatialMath>(k: &K, v: Vector3, s: Real, r: Vector3) -> bool {
    &&& call_ensures(K::product, (k, v.x, s), r.x)
    &&& call_ensures(K::product, (k, v.y, s), r.y)
    &&& call_ensures(K::product, (k, v.z, s), r.z)
}

pub fn multiply_vector<K: SpatialMath>(k: &K, v: Vector3, s: Real) -> (r: Vector3)
    ensures
        times(k, v, s, r),
{
    Vector3 { x: k.product(v.x, s), y: k.product(v.y, s), z: k.product(v.z, s) }
}

/// Whether `r` is a motion with its rotation times one number and its translation times another.
pub open spec fn times_both<K: SpatialMath>(k: &K, m: Motion, rotation: Real, translation: Real, r: Motion) -> bool {
    times(k, m.angular, rotation, r.angular) && times(k, m.linear, translation, r.linear)
}

fn multiply_both<K: SpatialMath>(k: &K, m: Motion, rotation: Real, translation: Real) -> (r: Motion)
    ensures
        times_both(k, m, rotation, translation, r),
{
    Motion {
        angular: multiply_vector(k, m.angular, rotation),
        linear: multiply_vector(k, m.linear, translation),
    }
}

/// Whether `e` is how far a task is from its goal.
pub open spec fn task_error<'a, K: RobotMath>(k: &K, d: Data, task: IkTask<'a>, e: Seq<Real>) -> bool {
    match task {
        IkTask::Position { joint, point } => exists|x: Vector3|
            e == #[trigger] error::three(x) && call_ensures(
                K::offset,
                (k, point, d.oMi@[joint as int].translation),
                x,
            ),
        IkTask::Orientation { joint, pose } => exists|x: Vector3|
            e == #[trigger] error::three(x) && call_ensures(
                K::orientation_error,
                (k, d.oMi@[joint as int], pose),
                x,
            ),
        IkTask::Pose { joint, pose } => exists|x: Motion|
            e == #[trigger] spatial::six_of(x) && pose_gap(k, d.oMi@[joint as int], pose, x),
        IkTask::FramePose { frame, pose } => exists|m: Placement, x: Motion|
            {
                &&& #[trigger] call_ensures(
                    K::compose,
                    (k, d.oMi@[frame.parent_joint as int], frame.placement),
                    m,
                )
                &&& e == #[trigger] spatial::six_of(x)
                &&& pose_gap(k, m, pose, x)
            },
        IkTask::Weighted { joint, point, pose, position_weight, orientation_weight } => exists|
            gap: Motion,
            x: Motion,
        |
            {
                &&& call_ensures(K::orientation_error, (k, d.oMi@[joint as int], pose), gap.angular)
                &&& call_ensures(
                    K::offset,
                    (k, point, d.oMi@[joint as int].translation),
                    gap.linear,
                )
                &&& #[trigger] times_both(k, gap, orientation_weight, position_weight, x)
                &&& e == spatial::six_of(x)
            },
    }
}

/// Whether `r` holds the first three numbers of the columns, one row for each.
pub open spec fn angular_rows(columns: Seq<Motion>, r: Matrix) -> bool {
    &&& r.sized(3, columns.len() as int)
    &&& forall|t: int, c: int|
        0 <= t < 3 && 0 <= c < columns.len() ==> #[trigger] r.at(t, c) == spatial::six_of(columns[c])[t]
}

fn take_angular_rows(columns: &Vec<Motion>) -> (r: Matrix)
    ensures
        angular_rows(columns@, r),
{
    let mut all = take_rows(columns, 0);
    let ghost whole = all;
    all.rows.truncate(3);
    assert forall|r: int| 0 <= r < 3 implies #[trigger] all.rows@[r] == whole.rows@[r] by {}
    assert forall|t: int, c: int| 0 <= t < 3 && 0 <= c < columns@.len() implies #[trigger] all.at(t, c)
        == spatial::six_of(columns@[c])[t] by {
        assert(all.rows@[t] == whole.rows@[t]);
        assert(whole.at(t, c) == spatial::six_of(columns@[c])[t]);
    }
    all
}

/// Whether the columns of `r` are those of `a`, the rotation times one number and the translation
/// times another.
pub open spec fn weighted_columns<K: SpatialMath>(
    k: &K,
    a: Seq<Motion>,
    rotation: Real,
    translation: Real,
    r: Seq<Motion>,
) -> bool {
    &&& r.len() == a.len()
    &&& forall|c: int| 0 <= c < a.len() ==> times_both(k, a[c], rotation, translation, #[trigger] r[c])
}

fn weigh_both<K: SpatialMath>(k: &K, a: &Vec<Motion>, rotation: Real, translation: Real) -> (r: Vec<Motion>)
    ensures
        weighted_columns(k, a@, rotation, translation, r@),
{
    let mut r: Vec<Motion> = Vec::new();
    for c in 0..a.len()
        invariant
            r@.len() == c,
            forall|x: int|
                0 <= x < c ==> times_both(k, a@[x], rotation, translation, #[trigger] r@[x]),
    {
        r.push(multiply_both(k, a[c], rotation, translation));
    }
    r
}

/// Whether `jac` is the Jacobian of the origin of a joint.
pub open spec fn origin_jacobian<K: SpatialMath>(k: &K, m: Model, d: Data, joint: int, jac: Seq<Motion>) -> bool {
    jacobian::is_jacobian(k, m, d.oMi@, d.oMi@[joint].translation, joint, Seq::empty(), jac)
}

/// Whether `r` is the Jacobian of a task.
pub open spec fn task_rows<'a, K: RobotMath>(k: &K, m: Model, d: Data, task: IkTask<'a>, r: Matrix) -> bool {
    match task {
        IkTask::Position { joint, .. } => exists|jac: Seq<Motion>| #[trigger]
            origin_jacobian(k, m, d, joint as int, jac) && goal::rows_from(jac, 3, r),
        IkTask::Orientation { joint, .. } => exists|jac: Seq<Motion>| #[trigger]
            origin_jacobian(k, m, d, joint as int, jac) && angular_rows(jac, r),
        IkTask::Pose { joint, .. } => exists|jac: Seq<Motion>| #[trigger]
            origin_jacobian(k, m, d, joint as int, jac) && goal::rows_from(jac, 0, r),
        IkTask::FramePose { frame, .. } => exists|jac: Seq<Motion>| #[trigger]
            frames::frame_jacobian(k, m, d, *frame, jac) && goal::rows_from(jac, 0, r),
        IkTask::Weighted { joint, position_weight, orientation_weight, .. } => exists|
            jac: Seq<Motion>,
            w: Seq<Motion>,
        |
            {
                &&& #[trigger] origin_jacobian(k, m, d, joint as int, jac)
                &&& #[trigger] weighted_columns(k, jac, orientation_weight, position_weight, w)
                &&& goal::rows_from(w, 0, r)
            },
    }
}

pub fn list_three(x: Vector3) -> (e: Vec<Real>)
    ensures
        e@ == error::three(x),
{
    let mut e: Vec<Real> = Vec::new();
    e.push(x.x);
    e.push(x.y);
    e.push(x.z);
    assert(e@ =~= error::three(x));
    e
}

fn list_six(x: Motion) -> (e: Vec<Real>)
    ensures
        e@ == spatial::six_of(x),
{
    let mut e: Vec<Real> = Vec::new();
    e.push(x.angular.x);
    e.push(x.angular.y);
    e.push(x.angular.z);
    e.push(x.linear.x);
    e.push(x.linear.y);
    e.push(x.linear.z);
    assert(e@ =~= spatial::six_of(x));
    e
}

fn compute_pose_gap<K: RobotMath>(k: &K, current: Placement, target: Placement) -> (e: Motion)
    ensures
        pose_gap(k, current, target, e),
{
    Motion {
        angular: k.orientation_error(current, target),
        linear: k.offset(target.translation, current.translation),
    }
}

fn compute_task_error<'a, K: RobotMath>(k: &K, d: &Data, task: &IkTask<'a>) -> (e: Vec<Real>)
    requires
        task.fits(d.oMi@.len() as int),
    ensures
        task_error(k, *d, *task, e@),
{
    match task {
        IkTask::Position { joint, point } => list_three(k.offset(*point, d.oMi[*joint].translation)),
        IkTask::Orientation { joint, pose } => list_three(k.orientation_error(d.oMi[*joint], *pose)),
        IkTask::Pose { joint, pose } => list_six(compute_pose_gap(k, d.oMi[*joint], *pose)),
        IkTask::FramePose { frame, pose } => {
            let m = compute_frame_placement_from_data(k, d, frame);
            list_six(compute_pose_gap(k, m, *pose))
        },
        IkTask::Weighted { joint, point, pose, position_weight, orientation_weight } => {
            let gap = Motion {
                angular: k.orientation_error(d.oMi[*joint], *pose),
                linear: k.offset(*point, d.oMi[*joint].translation),
            };
            let x = multiply_both(k, gap, *orientation_weight, *position_weight);
            assert(times_both(k, gap, *orientation_weight, *position_weight, x));
            list_six(x)
        },
    }
}

fn compute_task_rows<'a, K: RobotMath>(k: &K, model: &Model, d: &Data, task: &IkTask<'a>) -> (r: Matrix)
    requires
        model.wf(),
        d.fits(*model),
        task.fits(model.joints@.len() as int),
    ensures
        r.wf(),
        r.cols == model.nv,
        task_rows(k, *model, *d, *task, r),
{
    match task {
        IkTask::Position { joint, .. } => {
            let jac = compute_joint_jacobian_from_data(k, model, d, *joint);
            assert(origin_jacobian(k, *model, *d, *joint as int, jac@));
            take_rows(&jac, 3)
        },
        IkTask::Orientation { joint, .. } => {
            let jac = compute_joint_jacobian_from_data(k, model, d, *joint);
            assert(origin_jacobian(k, *model, *d, *joint as int, jac@));
            take_angular_rows(&jac)
        },
        IkTask::Pose { joint, .. } => {
            let jac = compute_joint_jacobian_from_data(k, model, d, *joint);
            assert(origin_jacobian(k, *model, *d, *joint as int, jac@));
            take_rows(&jac, 0)
        },
        IkTask::FramePose { frame, .. } => {
            let jac = compute_frame_jacobian_from_data(k, model, d, frame);
            assert(frames::frame_jacobian(k, *model, *d, **frame, jac@));
            take_rows(&jac, 0)
        },
        IkTask::Weighted { joint, position_weight, orientation_weight, .. } => {
            let jac = compute_joint_jacobian_from_data(k, model, d, *joint);
            assert(origin_jacobian(k, *model, *d, *joint as int, jac@));
            let w = weigh_both(k, &jac, *orientation_weight, *position_weight);
            assert(weighted_columns(k, jac@, *orientation_weight, *position_weight, w@));
            take_rows(&w, 0)
        },
    }
}

/// Whether `s` is what is measured of a task at a configuration.
pub open spec fn task_measured<'a, K: RobotMath>(k: &K, m: Model, task: IkTask<'a>, q: Seq<Real>, s: IkState) -> bool {
    &&& s.data.fits(m)
    &&& fk::all_placed(k, m, q, s.data)
    &&& task_error(k, s.data, task, s.e@)
    &&& matrix::length_of(k, s.e@, s.norm)
    &&& s.jac.wf()
    &&& s.jac.cols == m.nv
    &&& task_rows(k, m, s.data, task, s.jac)
}

pub fn measure_task<'a, K: RobotMath>(k: &K, model: &Model, task: &IkTask<'a>, q: &Vec<Real>) -> (s: IkState)
    requires
        model.wf(),
        q@.len() == model.nq,
        task.fits(model.joints@.len() as int),
    ensures
        task_measured(k, *model, *task, q@, s),
        s.second is None,
        s.error == s.norm,
{
    let data = forward_kinematics(k, model, q.as_slice());
    let e = compute_task_error(k, &data, task);
    let norm = length(k, &e);
    let jac = compute_task_rows(k, model, &data, task);
    IkState { data, e, norm, jac, second: None, error: norm }
}

// ── Iteration ──

/// Whether `r` is the velocity `v` moved into the limits, if there are any.
pub open spec fn saturated(limits: Option<JointLimits>, v: Seq<Real>, r: Seq<Real>) -> bool {
    match limits {
        Some(lim) => limits::saturates(lim, v, r),
        None => r == v,
    }
}

pub fn saturate(model: &Model, limits: &Option<JointLimits>, v: Vec<Real>) -> (r: Vec<Real>)
    requires
        v@.len() == model.nv,
        limits matches Some(lim) ==> lim.fits(*model),
    ensures
        r@.len() == model.nv,
        saturated(*limits, v@, r@),
{
    match limits {
        Some(lim) => saturate_velocity(model, v.as_slice(), lim),
        None => v,
    }
}

/// Whether `dq` is the part of the step `full` that is taken.
pub open spec fn shortened<K: SpatialMath>(k: &K, config: IkConfig, full: Seq<Real>, dq: Seq<Real>) -> bool {
    exists|s: Seq<Real>| #[trigger]
        least_squares::scaled(k, full, config.step_size, s) && saturated(config.joint_limits, s, dq)
}

pub fn shorten<K: SpatialMath>(k: &K, model: &Model, config: &IkConfig, full: &Vec<Real>) -> (dq: Vec<Real>)
    requires
        full@.len() == model.nv,
        config.joint_limits matches Some(lim) ==> lim.fits(*model),
    ensures
        dq@.len() == model.nv,
        shortened(k, *config, full@, dq@),
{
    let s = scale(k, full, config.step_size);
    assert(least_squares::scaled(k, full@, config.step_size, s@));
    saturate(model, &config.joint_limits, s)
}

/// Whether `r` is the configuration `q` moved by `dq`, within the limits.
pub open spec fn moved<K: RobotMath>(k: &K, m: Model, config: IkConfig, q: Seq<Real>, dq: Seq<Real>, r: Seq<Real>) -> bool {
    exists|next: Seq<Real>| #[trigger]
        manifold::integrated(k, m, q, dq, Real::one(), next) && qp_ik::kept(m, config.joint_limits, next, r)
}

pub fn move_by<K: RobotMath>(k: &K, model: &Model, config: &IkConfig, q: &Vec<Real>, dq: &Vec<Real>) -> (r: Vec<Real>)
    requires
        model.wf(),
        q@.len() == model.nq,
        dq@.len() == model.nv,
        config.joint_limits matches Some(lim) ==> lim.fits(*model),
    ensures
        r@.len() == model.nq,
        moved(k, *model, *config, q@, dq@, r@),
        config.joint_limits matches Some(lim) ==> limits::within(*model, lim, r@),
{
    let next = integrate(k, model, q.as_slice(), dq.as_slice(), Real::one());
    assert(manifold::integrated(k, *model, q@, dq@, Real::one(), next@));
    keep(model, &config.joint_limits, next)
}

/// Whether a configuration has the right size and keeps within the limits.
pub open spec fn proper(m: Model, limits: Option<JointLimits>, q: Seq<Real>) -> bool {
    &&& q.len() == m.nq
    &&& limits matches Some(lim) ==> limits::within(m, lim, q)
}

/// Whether the limits fit the model.
pub open spec fn limits_fit(m: Model, limits: Option<JointLimits>) -> bool {
    limits matches Some(lim) ==> lim.fits(m)
}

/// A task and the way towards it.
pub struct TaskDescent<'a, K> {
    pub k: &'a K,
    pub model: &'a Model,
    pub config: &'a IkConfig,
    pub task: IkTask<'a>,
}

/// Whether the step `full` from `q` comes to `o`: it is shortened, and too small a rest of it is
/// no step.
pub open spec fn short_step<K: RobotMath>(
    k: &K,
    m: Model,
    config: IkConfig,
    q: Seq<Real>,
    full: Option<Vec<Real>>,
    o: Outcome,
) -> bool {
    match full {
        Some(full) => exists|dq: Seq<Real>, norm: Real|
            {
                &&& #[trigger] shortened(k, config, full@, dq)
                &&& #[trigger] matrix::length_of(k, dq, norm)
                &&& if norm.at_most(config.tol_step) {
                    o == Outcome::Rest
                } else {
                    o matches Outcome::Move(r) && moved(k, m, config, q, dq, r@)
                }
            },
        None => o == Outcome::Fail,
    }
}

fn take_short_step<K: RobotMath>(
    k: &K,
    model: &Model,
    config: &IkConfig,
    q: &Vec<Real>,
    full: Option<Vec<Real>>,
) -> (o: Outcome)
    requires
        model.wf(),
        q@.len() == model.nq,
        limits_fit(*model, config.joint_limits),
        full matches Some(full) ==> full@.len() == model.nv,
    ensures
        short_step(k, *model, *config, q@, full, o),
        o matches Outcome::Move(r) ==> proper(*model, config.joint_limits, r@),
{
    match full {
        Some(full) => {
            let dq = shorten(k, model, config, &full);
            let norm = length(k, &dq);
            assert(shortened(k, *config, full@, dq@));
            assert(matrix::length_of(k, dq@, norm));
            if norm.le(config.tol_step) {
                Outcome::Rest
            } else {
                Outcome::Move(move_by(k, model, config, q, &dq))
            }
        },
        None => Outcome::Fail,
    }
}

impl<'a, K: RobotMath> Descent for TaskDescent<'a, K> {
    type State = IkState;

    open spec fn valid(&self) -> bool {
        &&& self.model.wf()
        &&& self.task.fits(self.model.joints@.len() as int)
        &&& limits_fit(*self.model, self.config.joint_limits)
    }

    open spec fn fits(&self, q: Seq<Real>) -> bool {
        proper(*self.model, self.config.joint_limits, q)
    }

    open spec fn measured(&self, q: Seq<Real>, s: IkState) -> bool {
        &&& task_measured(self.k, *self.model, self.task, q, s)
        &&& s.error == s.norm
    }

    open spec fn reached(&self, s: IkState) -> bool {
        s.norm.at_most(self.config.tol_error)
    }

    open spec fn stepped(&self, q: Seq<Real>, s: IkState, o: Outcome) -> bool {
        exists|full: Option<Vec<Real>>| #[trigger]
            ik_solver::is_step(
                self.k,
                s.jac,
                s.e@,
                self.config.damping,
                self.config.solver_method,
                self.config.joint_weights,
                full,
            ) && short_step(self.k, *self.model, *self.config, q, full, o)
    }

    fn measure(&self, q: &Vec<Real>) -> (s: IkState) {
        measure_task(self.k, self.model, &self.task, q)
    }

    fn test(&self, s: &IkState) -> (r: bool) {
        s.norm.le(self.config.tol_error)
    }

    fn step(&self, q: &Vec<Real>, s: &IkState) -> (o: Outcome) {
        let full = solver_step(
            self.k,
            &s.jac,
            &s.e,
            &self.config.damping,
            self.config.solver_method,
            &self.config.joint_weights,
        );
        let ghost told = full;
        assert(ik_solver::is_step(
            self.k,
            s.jac,
            s.e@,
            self.config.damping,
            self.config.solver_method,
            self.config.joint_weights,
            told,
        ));
        take_short_step(self.k, self.model, self.config, q, full)
    }
}

/// How a search ended, as told to its caller.
pub open spec fn status_of(ending: Ending) -> IkStatus {
    match ending {
        Ending::Reached => IkStatus::Converged,
        Ending::Failed => IkStatus::NumericalFailure,
        _ => IkStatus::MaxIterations,
    }
}

/// Whether `r` tells where an iteration comes to: the number of iterations counts only if the goal
/// was reached or a step failed.
pub open spec fn ik_tells<D: Descent<State = IkState>>(
    d: D,
    start: Seq<Real>,
    max: usize,
    unmeasured: Real,
    r: IkResult,
) -> bool {
    exists|n: int, last: Option<IkState>, ending: Ending|
        {
            &&& #[trigger] descent::descends(d, start, max as int, n, r.q@, last, ending)
            &&& r.status == status_of(ending)
            &&& r.iterations == if ending == Ending::Reached || ending == Ending::Failed {
                n
            } else {
                max as int
            }
            &&& r.final_error_norm == match last {
                Some(s) => s.error,
                None => unmeasured,
            }
        }
}

/// A search that says it has converged stopped early, and the error it tells is one measured at
/// the configuration it returns, where the goal is met.
pub proof fn converging_is_measured<D: Descent<State = IkState>>(
    d: D,
    start: Seq<Real>,
    max: usize,
    unmeasured: Real,
    r: IkResult,
)
    requires
        ik_tells(d, start, max, unmeasured, r),
        r.status == IkStatus::Converged,
    ensures
        r.iterations < max,
        exists|s: IkState| #[trigger] d.measured(r.q@, s) && d.reached(s) && r.final_error_norm == s.error,
{
    let (n, last, ending) = choose|n: int, last: Option<IkState>, ending: Ending|
        {
            &&& #[trigger] descent::descends(d, start, max as int, n, r.q@, last, ending)
            &&& r.status == status_of(ending)
            &&& r.iterations == if ending == Ending::Reached || ending == Ending::Failed {
                n
            } else {
                max as int
            }
            &&& r.final_error_norm == match last {
                Some(s) => s.error,
                None => unmeasured,
            }
        };
    descent::reaching_is_measured(d, start, max as int, n, r.q@, last);
    assert(d.measured(r.q@, last->0));
}

/// With at least one iteration allowed, the error that a search tells is one that it measured, and the
/// search says that it has converged exactly if the goal was met there.
pub proof fn status_follows_measurement<D: Descent<State = IkState>>(
    d: D,
    start: Seq<Real>,
    max: usize,
    unmeasured: Real,
    r: IkResult,
)
    requires
        ik_tells(d, start, max, unmeasured, r),
        max > 0,
    ensures
        exists|p: Seq<Real>, s: IkState|
            {
                &&& d.fits(p)
                &&& #[trigger] d.measured(p, s)
                &&& r.final_error_norm == s.error
                &&& (r.status == IkStatus::Converged <==> d.reached(s))
            },
{
    let (n, last, ending) = choose|n: int, last: Option<IkState>, ending: Ending|
        {
            &&& #[trigger] descent::descends(d, start, max as int, n, r.q@, last, ending)
            &&& r.status == status_of(ending)
            &&& r.iterations == if ending == Ending::Reached || ending == Ending::Failed {
                n
            } else {
                max as int
            }
            &&& r.final_error_norm == match last {
                Some(s) => s.error,
                None => unmeasured,
            }
        };
    descent::reaching_is_told(d, start, max as int, n, r.q@, last, ending);
    let s = last->0;
    let p = choose|p: Seq<Real>| d.fits(p) && #[trigger] d.measured(p, s);
    assert(d.fits(p) && d.measured(p, s) && r.final_error_norm == s.error);
}

pub fn search<D: Descent<State = IkState>>(d: &D, start: Vec<Real>, max: usize, unmeasured: Real) -> (r: IkResult)
    requires
        d.valid(),
        d.fits(start@),
    ensures
        d.fits(r.q@),
        ik_tells(*d, start@, max, unmeasured, r),
{
    let found = descend(d, start, max);
    let (status, iterations): (IkStatus, usize) = match found.ending {
        Ending::Reached => (IkStatus::Converged, found.steps),
        Ending::Failed => (IkStatus::NumericalFailure, found.steps),
        _ => (IkStatus::MaxIterations, max),
    };
    let final_error_norm = match &found.last {
        Some(s) => s.error,
        None => unmeasured,
    };
    let r = IkResult { q: found.q, iterations, final_error_norm, status };
    proof {
        let n = found.steps as int;
        let last: Option<IkState> = found.last;
        let ending = found.ending;
        assert(descent::descends(*d, start@, max as int, n, r.q@, last, ending));
        assert(r.status == status_of(ending));
        assert(r.final_error_norm == match last {
            Some(s) => s.error,
            None => unmeasured,
        });
        assert(ik_tells(*d, start@, max, unmeasured, r));
    }
    r
}

/// Whether `start` is where a search from `q0` begins: made valid and moved into the limits.
pub open spec fn begins<K: RobotMath>(k: &K, m: Model, config: IkConfig, q0: Seq<Real>, start: Seq<Real>) -> bool {
    exists|q: Seq<Real>| #[trigger] manifold::normalized(k, m, q0, q) && qp_ik::kept(m, config.joint_limits, q, start)
}

pub fn begin<K: RobotMath>(k: &K, model: &Model, config: &IkConfig, q0: &[Real]) -> (start: Vec<Real>)
    requires
        model.wf(),
        q0@.len() == model.nq,
        limits_fit(*model, config.joint_limits),
    ensures
        begins(k, *model, *config, q0@, start@),
        proper(*model, config.joint_limits, start@),
{
    let q = normalize_configuration(k, model, q0);
    assert(manifold::normalized(k, *model, q0@, q@));
    keep(model, &config.joint_limits, q)
}

/// Whether `r` tells where a search for a task from `q0` comes to.
pub open spec fn solves<'a, K: RobotMath>(d: TaskDescent<'a, K>, q0: Seq<Real>, r: IkResult) -> bool {
    exists|start: Seq<Real>| #[trigger]
        begins(d.k, *d.model, *d.config, q0, start) && ik_tells(
            d,
            start,
            d.config.max_iters,
            Real::infinity(),
            r,
        )
}

/// A search for a task that says it has converged ended with an error within the tolerance.
pub proof fn convergence_is_within_tolerance<'a, K: RobotMath>(
    d: TaskDescent<'a, K>,
    q0: Seq<Real>,
    r: IkResult,
)
    requires
        solves(d, q0, r),
        r.status == IkStatus::Converged,
    ensures
        r.final_error_norm.at_most(d.config.tol_error),
        exists|s: IkState| #[trigger]
            task_measured(d.k, *d.model, d.task, r.q@, s) && s.norm == r.final_error_norm,
{
    let start = choose|start: Seq<Real>| #[trigger]
        begins(d.k, *d.model, *d.config, q0, start) && ik_tells(
            d,
            start,
            d.config.max_iters,
            Real::infinity(),
            r,
        );
    converging_is_measured(d, start, d.config.max_iters, Real::infinity(), r);
    let s = choose|s: IkState| #[trigger] d.measured(r.q@, s) && d.reached(s) && r.final_error_norm == s.error;
    assert(task_measured(d.k, *d.model, d.task, r.q@, s));
}

/// With at least one iteration allowed, a search for a task says that it has converged exactly if
/// the error that it tells is within the tolerance.
pub proof fn convergence_is_a_small_error<'a, K: RobotMath>(d: TaskDescent<'a, K>, q0: Seq<Real>, r: IkResult)
    requires
        solves(d, q0, r),
        d.config.max_iters > 0,
    ensures
        r.status == IkStatus::Converged <==> r.final_error_norm.at_most(d.config.tol_error),
{
    let start = choose|start: Seq<Real>| #[trigger]
        begins(d.k, *d.model, *d.config, q0, start) && ik_tells(
            d,
            start,
            d.config.max_iters,
            Real::infinity(),
            r,
        );
    status_follows_measurement(d, start, d.config.max_iters, Real::infinity(), r);
}

fn solve_iterative<'a, K: RobotMath>(d: &TaskDescent<'a, K>, q0: &[Real]) -> (r: IkResult)
    requires
        d.valid(),
        q0@.len() == d.model.nq,
    ensures
        proper(*d.model, d.config.joint_limits, r.q@),
        solves(*d, q0@, r),
{
    let start = begin(d.k, d.model, d.config, q0);
    assert(begins(d.k, *d.model, *d.config, q0@, start@));
    search(d, start, d.config.max_iters, Real::infinity())
}

/// Looks for a configuration that brings the origin of a joint to a point.
pub fn solve_joint_position_ik<'a, K: RobotMath>(
    k: &'a K,
    model: &'a Model,
    q0: &[Real],
    joint_idx: usize,
    target_position_world: Vector3,
    config: &'a IkConfig,
) -> (r: IkResult)
    requires
        model.wf(),
        q0@.len() == model.nq,
        0 < joint_idx < model.joints@.len(),
        limits_fit(*model, config.joint_limits),
    ensures
        proper(*model, config.joint_limits, r.q@),
        solves(
            (TaskDescent {
                k,
                model,
                config,
                task: IkTask::Position { joint: joint_idx, point: target_position_world },
            }),
            q0@,
            r,
        ),
{
    let d = TaskDescent {
        k,
        model,
        config,
        task: IkTask::Position { joint: joint_idx, point: target_position_world },
    };
    solve_iterative(&d, q0)
}

/// Looks for a configuration that brings a joint to the orientation of a placement.
pub fn solve_joint_orientation_ik<'a, K: RobotMath>(
    k: &'a K,
    model: &'a Model,
    q0: &[Real],
    joint_idx: usize,
    target_orientation_world: Placement,
    config: &'a IkConfig,
) -> (r: IkResult)
    requires
        model.wf(),
        q0@.len() == model.nq,
        0 < joint_idx < model.joints@.len(),
        limits_fit(*model, config.joint_limits),
    ensures
        proper(*model, config.joint_limits, r.q@),
        solves(
            (TaskDescent {
                k,
                model,
                config,
                task: IkTask::Orientation { joint: joint_idx, pose: target_orientation_world },
            }),
            q0@,
            r,
        ),
{
    let d = TaskDescent {
        k,
        model,
        config,
        task: IkTask::Orientation { joint: joint_idx, pose: target_orientation_world },
    };
    solve_iterative(&d, q0)
}

/// Looks for a configuration that brings a joint to a pose.
pub fn solve_joint_pose_ik<'a, K: RobotMath>(
    k: &'a K,
    model: &'a Model,
    q0: &[Real],
    joint_idx: usize,
    target_pose_world: Placement,
    config: &'a IkConfig,
) -> (r: IkResult)
    requires
        model.wf(),
        q0@.len() == model.nq,
        0 < joint_idx < model.joints@.len(),
        limits_fit(*model, config.joint_limits),
    ensures
        proper(*model, config.joint_limits, r.q@),
        solves(
            (TaskDescent {
                k,
                model,
                config,
                task: IkTask::Pose { joint: joint_idx, pose: target_pose_world },
            }),
            q0@,
            r,
        ),
{
    let d = TaskDescent {
        k,
        model,
        config,
        task: IkTask::Pose { joint: joint_idx, pose: target_pose_world },
    };
    solve_iterative(&d, q0)
}

/// Looks for a configuration that brings a frame to a pose.
pub fn solve_frame_pose_ik<'a, K: RobotMath>(
    k: &'a K,
    model: &'a Model,
    q0: &[Real],
    frame: &'a Frame,
    target_pose_world: Placement,
    config: &'a IkConfig,
) -> (r: IkResult)
    requires
        model.wf(),
        q0@.len() == model.nq,
        frame.parent_joint < model.joints@.len(),
        limits_fit(*model, config.joint_limits),
    ensures
        proper(*model, config.joint_limits, r.q@),
        solves(
            (TaskDescent {
                k,
                model,
                config,
                task: IkTask::FramePose { frame, pose: target_pose_world },
            }),
            q0@,
            r,
        ),
{
    let d = TaskDescent {
        k,
        model,
        config,
        task: IkTask::FramePose { frame, pose: target_pose_world },
    };
    solve_iterative(&d, q0)
}

/// Looks for a configuration that brings a joint to a point and an orientation, with weights.
pub fn solve_joint_position_orientation_ik<'a, K: RobotMath>(
    k: &'a K,
    model: &'a Model,
    q0: &[Real],
    joint_idx: usize,
    target_position_world: Vector3,
    target_orientation_world: Placement,
    position_weight: Real,
    orientation_weight: Real,
    config: &'a IkConfig,
) -> (r: IkResult)
    requires
        model.wf(),
        q0@.len() == model.nq,
        0 < joint_idx < model.joints@.len(),
        limits_fit(*model, config.joint_limits),
    ensures
        proper(*model, config.joint_limits, r.q@),
        solves(
            (TaskDescent {
                k,
                model,
                config,
                task: IkTask::Weighted {
                    joint: joint_idx,
                    point: target_position_world,
                    pose: target_orientation_world,
                    position_weight,
                    orientation_weight,
                },
            }),
            q0@,
            r,
        ),
{
    let d = TaskDescent {
        k,
        model,
        config,
        task: IkTask::Weighted {
            joint: joint_idx,
            point: target_position_world,
            pose: target_orientation_world,
            position_weight,
            orientation_weight,
        },
    };
    solve_iterative(&d, q0)
}

/// Tells whether no two objects overlap that may not.
pub fn configuration_is_collision_free<K: RobotMath + Proximity>(
    k: &K,
    model: &Model,
    gmodel: &GeometryModel,
    q: &[Real],
    acm: Option<&AllowedCollisionMatrix>,
) -> (r: bool)
    requires
        model.wf(),
        q@.len() == model.nq,
    ensures
        exists|l: Seq<CollisionPair>| #[trigger]
            collision::is_collision_list(k, *model, *gmodel, q@, collision::matrix_filter(acm), l) && r == (l.len() == 0),
{
    !has_collision_acm(k, model, gmodel, q, acm)
}

} // verus!
