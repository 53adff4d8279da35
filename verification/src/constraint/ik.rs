//! Inverse kinematics under constraints by damped least squares.

use vstd::prelude::*;
use crate::constraint::goal;
use crate::constraint::jacobian;
use crate::descent;
use crate::least_squares;
use crate::manifold;
use crate::matrix;
use crate::constraint::goal::{compute_goal_rows, measure_goal, Goal, Measured};
use crate::constraint::jacobian::compute_constraint_jacobian_from_data;
use crate::constraint::types::ConstraintModel;
use crate::data::copy_slice;
use crate::descent::{descend, Descent, Ending, Outcome};
use crate::frames::Frame;
use crate::least_squares::{damped_solve, scale};
use crate::manifold::integrate;
use crate::matrix::{pull, Matrix};
use crate::model::Model;
use crate::number::{Real, Vector3};
use crate::pose::RobotMath;
use crate::spatial::Placement;

verus! {

/// 1e-6.
pub const TOLERANCE: u64 = 0x3eb0c6f7a0b5ed8d;

/// One half.
pub const HALF_STEP: u64 = 0x3fe0000000000000;

/// 1e-3.
pub const DAMPING: u64 = 0x3f50624dd2f1a9fc;

/// Ten.
pub const WEIGHT: u64 = 0x4024000000000000;

/// Result of inverse kinematics under constraints.
#[derive(Clone, Debug)]
pub struct ConstrainedIkResult {
    /// The configuration that was found.
    pub q: Vec<Real>,
    /// Number of iterations taken.
    pub iterations: usize,
    /// Size of the errors of the constraints at that configuration.
    pub constraint_error_norm: Real,
    /// Size of the error of the task at that configuration.
    pub task_error_norm: Real,
    /// Whether the goal was reached.
    pub converged: bool,
}

/// Settings of inverse kinematics under constraints.
#[derive(Clone, Copy, Debug)]
pub struct ConstrainedIkConfig {
    /// Largest number of iterations.
    pub max_iters: usize,
    /// Size of errors of constraints that counts as met.
    pub tol_constraint: Real,
    /// Size of the error of the task that counts as reached.
    pub tol_task: Real,
    /// Share of a step that is taken.
    pub step_size: Real,
    /// Damping of the steps.
    pub damping: Real,
    /// Weight of the constraints against the task.
    pub constraint_weight: Real,
}

impl Default for ConstrainedIkConfig {
    fn default() -> (r: Self)
        ensures
            r == (ConstrainedIkConfig {
                max_iters: 200,
                tol_constraint: Real { bits: TOLERANCE },
                tol_task: Real { bits: TOLERANCE },
                step_size: Real { bits: HALF_STEP },
                damping: Real { bits: DAMPING },
                constraint_weight: Real { bits: WEIGHT },
            }),
    {
        ConstrainedIkConfig {
            max_iters: 200,
            tol_constraint: Real { bits: TOLERANCE },
            tol_task: Real { bits: TOLERANCE },
            step_size: Real { bits: HALF_STEP },
            damping: Real { bits: DAMPING },
            constraint_weight: Real { bits: WEIGHT },
        }
    }
}

/// A task and constraints, and the way towards them.
pub struct ConstrainedDescent<'a, K> {
    pub k: &'a K,
    pub model: &'a Model,
    pub cm: &'a ConstraintModel,
    pub config: &'a ConstrainedIkConfig,
    pub goal: Goal<'a>,
}

/// Whether `r` holds the rows of the task and, below, those of the constraints with their
/// weight, which is left out without a task.
pub open spec fn augmented<'a, K: RobotMath>(
    k: &K,
    goal: Goal<'a>,
    task: Matrix,
    jc: Matrix,
    weight: Real,
    r: Matrix,
) -> bool {
    &&& r.sized(task.height() + jc.height(), jc.cols as int)
    &&& forall|i: int, c: int|
        0 <= i < task.height() && 0 <= c < jc.cols ==> #[trigger] r.at(i, c) == task.at(i, c)
    &&& forall|i: int, c: int|
        task.height() <= i < task.height() + jc.height() && 0 <= c < jc.cols ==> weighted(
            k,
            goal,
            jc.at(i - task.height(), c),
            weight,
            #[trigger] r.at(i, c),
        )
}

/// Whether `r` is the number with its weight, which is left out without a task.
pub open spec fn weighted<'a, K: RobotMath>(k: &K, goal: Goal<'a>, x: Real, weight: Real, r: Real) -> bool {
    if goal is Constraints {
        r == x
    } else {
        call_ensures(K::product, (k, x, weight), r)
    }
}

fn weigh<'a, K: RobotMath>(k: &K, goal: &Goal<'a>, x: Real, weight: Real) -> (r: Real)
    ensures
        weighted(k, *goal, x, weight, r),
{
    match goal {
        Goal::Constraints => x,
        _ => k.product(x, weight),
    }
}

fn augment<'a, K: RobotMath>(k: &K, goal: &Goal<'a>, task: Matrix, jc: &Matrix, weight: Real) -> (r: Matrix)
    requires
        task.wf(),
        jc.wf(),
        task.cols == jc.cols,
    ensures
        augmented(k, *goal, task, *jc, weight, r),
{
    let ghost start = task;
    let width: usize = jc.cols;
    let mut r = task;
    for i in 0..jc.rows.len()
        invariant
            width == jc.cols,
            width == r.cols,
            jc.wf(),
            start.wf(),
            start.cols == width,
            r.rows@.len() == start.rows@.len() + i,
            forall|x: int| 0 <= x < r.rows@.len() ==> (#[trigger] r.rows@[x])@.len() == width,
            forall|x: int| 0 <= x < start.rows@.len() ==> #[trigger] r.rows@[x] == start.rows@[x],
            forall|x: int, c: int|
                start.rows@.len() <= x < start.rows@.len() + i && 0 <= c < width ==> weighted(
                    k,
                    *goal,
                    jc.at(x - start.rows@.len(), c),
                    weight,
                    #[trigger] r.rows@[x]@[c],
                ),
    {
        let mut row: Vec<Real> = Vec::new();
        for c in 0..width
            invariant
                width == jc.cols,
                jc.wf(),
                i < jc.rows@.len(),
                row@.len() == c,
                forall|y: int|
                    0 <= y < c ==> weighted(k, *goal, jc.at(i as int, y), weight, #[trigger] row@[y]),
        {
            row.push(weigh(k, goal, jc.get(i, c), weight));
        }
        r.rows.push(row);
    }
    r
}

/// Whether `r` holds the error of the task and, below, the errors of the constraints with the
/// opposite sign and their weight, which is left out without a task.
pub open spec fn augmented_errors<'a, K: RobotMath>(
    k: &K,
    goal: Goal<'a>,
    task: Seq<Real>,
    errors: Seq<Real>,
    weight: Real,
    r: Seq<Real>,
) -> bool {
    &&& r.len() == task.len() + errors.len()
    &&& forall|i: int| 0 <= i < task.len() ==> #[trigger] r[i] == task[i]
    &&& forall|i: int|
        task.len() <= i < r.len() ==> weighted(
            k,
            goal,
            errors[i - task.len()].negated(),
            weight,
            #[trigger] r[i],
        )
}

fn augment_errors<'a, K: RobotMath>(k: &K, goal: &Goal<'a>, s: &Measured, weight: Real) -> (r: Vec<Real>)
    ensures
        augmented_errors(k, *goal, s.task@, s.errors@, weight, r@),
{
    let mut r: Vec<Real> = crate::mesh::copy_list(&s.task);
    for i in 0..s.errors.len()
        invariant
            r@.len() == s.task@.len() + i,
            forall|j: int| 0 <= j < s.task@.len() ==> #[trigger] r@[j] == s.task@[j],
            forall|j: int|
                s.task@.len() <= j < r@.len() ==> weighted(
                    k,
                    *goal,
                    s.errors@[j - s.task@.len()].negated(),
                    weight,
                    #[trigger] r@[j],
                ),
    {
        r.push(weigh(k, goal, s.errors[i].neg(), weight));
    }
    r
}

/// Whether a damped step from `q` for the rows `a` and the errors `e` comes to `o`.
pub open spec fn damped_step<K: RobotMath>(
    k: &K,
    m: Model,
    q: Seq<Real>,
    a: Matrix,
    e: Seq<Real>,
    config: ConstrainedIkConfig,
    o: Outcome,
) -> bool {
    exists|damping: Real, y: Option<Vec<Real>>|
        {
            &&& #[trigger] call_ensures(K::product, (k, config.damping, config.damping), damping)
            &&& #[trigger] least_squares::damped_answer(k, a, a, damping, e, y)
            &&& match y {
                Some(y) => o matches Outcome::Move(r) && pulled_step(k, m, q, a, y@, config.step_size, r@),
                None => o == Outcome::Rest,
            }
        }
}

/// Whether `r` is the configuration `q` moved by `Aᵀ y` times the step size.
pub open spec fn pulled_step<K: RobotMath>(
    k: &K,
    m: Model,
    q: Seq<Real>,
    a: Matrix,
    y: Seq<Real>,
    step: Real,
    r: Seq<Real>,
) -> bool {
    exists|full: Seq<Real>, dq: Seq<Real>|
        {
            &&& #[trigger] matrix::pulled(k, a, y, full)
            &&& #[trigger] least_squares::scaled(k, full, step, dq)
            &&& manifold::integrated(k, m, q, dq, Real::one(), r)
        }
}

impl<'a, K: RobotMath> Descent for ConstrainedDescent<'a, K> {
    type State = Measured;

    open spec fn valid(&self) -> bool {
        &&& self.model.wf()
        &&& self.cm.fits(self.model.joints@.len() as int)
        &&& self.goal.fits(self.model.joints@.len() as int)
    }

    open spec fn fits(&self, q: Seq<Real>) -> bool {
        q.len() == self.model.nq
    }

    open spec fn measured(&self, q: Seq<Real>, s: Measured) -> bool {
        goal::is_measured(self.k, *self.model, *self.cm, self.goal, q, s)
    }

    open spec fn reached(&self, s: Measured) -> bool {
        &&& self.goal is Constraints || s.task_norm.at_most(self.config.tol_task)
        &&& s.error_norm.at_most(self.config.tol_constraint)
    }

    open spec fn stepped(&self, q: Seq<Real>, s: Measured, o: Outcome) -> bool {
        exists|task: Matrix, jc: Matrix, a: Matrix, e: Seq<Real>|
            {
                &&& #[trigger] goal::goal_rows(self.k, *self.model, s.data, self.goal, task)
                &&& #[trigger] jacobian::stacked_rows(
                    self.k,
                    *self.model,
                    s.data,
                    self.cm.constraints@,
                    self.cm.constraints@.len() as int,
                    jc,
                )
                &&& #[trigger] augmented(
                    self.k,
                    self.goal,
                    task,
                    jc,
                    self.config.constraint_weight,
                    a,
                )
                &&& #[trigger] augmented_errors(
                    self.k,
                    self.goal,
                    s.task@,
                    s.errors@,
                    self.config.constraint_weight,
                    e,
                )
                &&& damped_step(self.k, *self.model, q, a, e, *self.config, o)
            }
    }

    fn measure(&self, q: &Vec<Real>) -> (s: Measured) {
        measure_goal(self.k, self.model, self.cm, &self.goal, q)
    }

    fn test(&self, s: &Measured) -> (r: bool) {
        let done = match self.goal {
            Goal::Constraints => true,
            _ => s.task_norm.le(self.config.tol_task),
        };
        done && s.error_norm.le(self.config.tol_constraint)
    }

    fn step(&self, q: &Vec<Real>, s: &Measured) -> (o: Outcome) {
        let k = self.k;
        let task = compute_goal_rows(k, self.model, &s.data, &self.goal);
        let ghost rows = task;
        let jc = compute_constraint_jacobian_from_data(k, self.model, &s.data, self.cm);
        let a = augment(k, &self.goal, task, &jc, self.config.constraint_weight);
        let e = augment_errors(k, &self.goal, s, self.config.constraint_weight);
        let damping = k.product(self.config.damping, self.config.damping);
        let y = damped_solve(k, &a, &a, damping, &e);
        assert(call_ensures(K::product, (k, self.config.damping, self.config.damping), damping));
        assert(least_squares::damped_answer(k, a, a, damping, e@, y));
        let o = match y {
            Some(y) => {
                let full = pull(k, &a, &y);
                let dq = scale(k, &full, self.config.step_size);
                assert(matrix::pulled(k, a, y@, full@));
                assert(least_squares::scaled(k, full@, self.config.step_size, dq@));
                let r = integrate(k, self.model, q.as_slice(), dq.as_slice(), Real::one());
                assert(pulled_step(k, *self.model, q@, a, y@, self.config.step_size, r@));
                Outcome::Move(r)
            },
            None => Outcome::Rest,
        };
        assert(damped_step(k, *self.model, q@, a, e@, *self.config, o));
        assert(goal::goal_rows(self.k, *self.model, s.data, self.goal, rows));
        assert(jacobian::stacked_rows(
            self.k,
            *self.model,
            s.data,
            self.cm.constraints@,
            self.cm.constraints@.len() as int,
            jc,
        ));
        assert(augmented(self.k, self.goal, rows, jc, self.config.constraint_weight, a));
        assert(augmented_errors(
            self.k,
            self.goal,
            s.task@,
            s.errors@,
            self.config.constraint_weight,
            e@,
        ));
        o
    }
}

/// Whether `r` tells where an iteration with at most `max` steps comes to, the errors measured there,
/// whether the goal is reached there, and how many steps were taken.
pub open spec fn tells<D: Descent<State = Measured>>(
    d: D,
    start: Seq<Real>,
    max: usize,
    r: ConstrainedIkResult,
) -> bool {
    exists|n: int, seen: Option<Measured>, ending: Ending, last: Measured|
        {
            &&& #[trigger] descent::descends(d, start, max as int, n, r.q@, seen, ending)
            &&& #[trigger] d.measured(r.q@, last)
            &&& ending != Ending::Exhausted ==> seen == Some(last)
            &&& r.task_error_norm == last.task_norm
            &&& r.constraint_error_norm == last.error_norm
            &&& r.converged == d.reached(last)
            &&& r.iterations == n
        }
}

/// Iterates towards a goal and tells where that comes to.
pub fn pursue<D: Descent<State = Measured>>(d: &D, start: Vec<Real>, max: usize) -> (r: ConstrainedIkResult)
    requires
        d.valid(),
        d.fits(start@),
    ensures
        d.fits(r.q@),
        tells(*d, start@, max, r),
{
    let found = descend(d, start, max);
    let ghost (n, seen, ending) = (found.steps as int, found.last, found.ending);
    let last = match (found.ending, found.last) {
        (Ending::Exhausted, _) | (_, None) => d.measure(&found.q),
        (_, Some(s)) => s,
    };
    let r = ConstrainedIkResult {
        q: found.q,
        iterations: found.steps,
        constraint_error_norm: last.error_norm,
        task_error_norm: last.task_norm,
        converged: d.test(&last),
    };
    proof {
        assert(descent::descends(*d, start@, max as int, n, r.q@, seen, ending));
        assert(d.measured(r.q@, last));
    }
    r
}

/// Looks for a configuration that meets constraints.
pub fn solve_constrained_ik<'a, K: RobotMath>(
    k: &'a K,
    model: &'a Model,
    q0: &[Real],
    cm: &'a ConstraintModel,
    config: &'a ConstrainedIkConfig,
) -> (r: ConstrainedIkResult)
    requires
        model.wf(),
        q0@.len() == model.nq,
        cm.fits(model.joints@.len() as int),
    ensures
        r.q@.len() == model.nq,
        tells(
            (ConstrainedDescent { k, model, cm, config, goal: Goal::Constraints }),
            q0@,
            config.max_iters,
            r,
        ),
{
    let d = ConstrainedDescent { k, model, cm, config, goal: Goal::Constraints };
    pursue(&d, copy_slice(q0), config.max_iters)
}

/// Looks for a configuration that brings a joint to a point and meets constraints.
pub fn solve_task_with_constraints<'a, K: RobotMath>(
    k: &'a K,
    model: &'a Model,
    q0: &[Real],
    joint_idx: usize,
    target: Vector3,
    cm: &'a ConstraintModel,
    config: &'a ConstrainedIkConfig,
) -> (r: ConstrainedIkResult)
    requires
        model.wf(),
        q0@.len() == model.nq,
        joint_idx < model.joints@.len(),
        cm.fits(model.joints@.len() as int),
    ensures
        r.q@.len() == model.nq,
        tells(
            (ConstrainedDescent { k, model, cm, config, goal: Goal::Point { joint: joint_idx, target } }),
            q0@,
            config.max_iters,
            r,
        ),
{
    let d = ConstrainedDescent { k, model, cm, config, goal: Goal::Point { joint: joint_idx, target } };
    pursue(&d, copy_slice(q0), config.max_iters)
}

/// Looks for a configuration that brings a frame to a pose and meets constraints.
pub fn solve_frame_task_with_constraints<'a, K: RobotMath>(
    k: &'a K,
    model: &'a Model,
    q0: &[Real],
    task_frame: &'a Frame,
    target_pose: Placement,
    cm: &'a ConstraintModel,
    config: &'a ConstrainedIkConfig,
) -> (r: ConstrainedIkResult)
    requires
        model.wf(),
        q0@.len() == model.nq,
        task_frame.parent_joint < model.joints@.len(),
        cm.fits(model.joints@.len() as int),
    ensures
        r.q@.len() == model.nq,
        tells(
            (ConstrainedDescent {
                k,
                model,
                cm,
                config,
                goal: Goal::Pose { frame: task_frame, pose: target_pose },
            }),
            q0@,
            config.max_iters,
            r,
        ),
{
    let d = ConstrainedDescent {
        k,
        model,
        cm,
        config,
        goal: Goal::Pose { frame: task_frame, pose: target_pose },
    };
    pursue(&d, copy_slice(q0), config.max_iters)
}

/// Converged or not, the norms that a search tells are measured at the configuration it returns, and
/// it says that it has converged exactly if the goal is reached there.
pub proof fn norms_are_final<D: Descent<State = Measured>>(
    d: D,
    start: Seq<Real>,
    max: usize,
    r: ConstrainedIkResult,
)
    requires
        tells(d, start, max, r),
    ensures
        r.iterations <= max,
        exists|s: Measured|
            {
                &&& #[trigger] d.measured(r.q@, s)
                &&& r.task_error_norm == s.task_norm
                &&& r.constraint_error_norm == s.error_norm
                &&& r.converged == d.reached(s)
            },
{
}

/// A search says that it has converged exactly if the norms that it tells meet the tolerances.
pub proof fn convergence_is_within_tolerance<'a, K: RobotMath>(
    d: ConstrainedDescent<'a, K>,
    start: Seq<Real>,
    r: ConstrainedIkResult,
)
    requires
        tells(d, start, d.config.max_iters, r),
    ensures
        r.converged <==> {
            &&& r.constraint_error_norm.at_most(d.config.tol_constraint)
            &&& d.goal is Constraints || r.task_error_norm.at_most(d.config.tol_task)
        },
        exists|s: Measured| #[trigger]
            goal::is_measured(d.k, *d.model, *d.cm, d.goal, r.q@, s) && s.error_norm == r.constraint_error_norm
                && s.task_norm == r.task_error_norm,
{
    norms_are_final(d, start, d.config.max_iters, r);
    let s = choose|s: Measured|
        {
            &&& #[trigger] d.measured(r.q@, s)
            &&& r.task_error_norm == s.task_norm
            &&& r.constraint_error_norm == s.error_norm
            &&& r.converged == d.reached(s)
        };
    assert(goal::is_measured(d.k, *d.model, *d.cm, d.goal, r.q@, s));
}

} // verus!
