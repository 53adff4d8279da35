//! Single steps of inverse kinematics.

use vstd::prelude::*;
use crate::constraint::error;
use crate::ik;
use crate::ik_solver;
use crate::matrix;
use crate::data::repeat;
use crate::ik::{list_three, multiply_vector};
use crate::ik_solver::{solver_step, Damping, JointWeights, SolverMethod};
use crate::matrix::{apply, length, multiply, Matrix};
use crate::number::{Real, Vector3};
use crate::pose::RobotMath;

verus! {

/// 0.3.
pub const GAIN: u64 = 0x3fd3333333333333;

/// 0.15.
pub const MAX_JOINT_STEP: u64 = 0x3fc3333333333333;

/// 0.05.
pub const STEP_DAMPING: u64 = 0x3fa999999999999a;

/// Settings of a single step.
#[derive(Clone, Debug)]
pub struct DiffIkConfig {
    /// Share of the error that is to be corrected.
    pub gain: Real,
    /// Largest change of a number.
    pub max_joint_step: Real,
    pub damping: Damping,
    pub solver_method: SolverMethod,
    /// Cost of moving each number of the velocity.
    pub joint_weights: Option<JointWeights>,
    /// What part of space counts, as a matrix with three columns.
    pub task_projection: Option<Matrix>,
}

impl Default for DiffIkConfig {
    fn default() -> (r: Self)
        ensures
            r == (DiffIkConfig {
                gain: Real { bits: GAIN },
                max_joint_step: Real { bits: MAX_JOINT_STEP },
                damping: Damping::Fixed(Real { bits: STEP_DAMPING }),
                solver_method: SolverMethod::DampedLeastSquares,
                joint_weights: None,
                task_projection: None,
            }),
    {
        DiffIkConfig {
            gain: Real { bits: GAIN },
            max_joint_step: Real { bits: MAX_JOINT_STEP },
            damping: Damping::Fixed(Real { bits: STEP_DAMPING }),
            solver_method: SolverMethod::DampedLeastSquares,
            joint_weights: None,
            task_projection: None,
        }
    }
}

/// Result of a single step.
#[derive(Clone, Debug)]
pub struct DiffIkResult {
    /// Change of each number.
    pub dq: Vec<Real>,
    /// Distance to the target before the step.
    pub error_before: Real,
}

/// An equality that a step has to work towards.
#[derive(Clone, Debug)]
pub struct DiffIkConstraint {
    pub jacobian: Matrix,
    /// What has to become zero.
    pub error: Vec<Real>,
    /// Weight against the task.
    pub weight: Real,
}

impl DiffIkConstraint {
    /// Whether there is an error for each row and a column for each of `n` numbers.
    pub open spec fn fits(self, n: int) -> bool {
        &&& self.jacobian.wf()
        &&& self.jacobian.cols == n
        &&& self.error@.len() == self.jacobian.height()
    }
}

/// Whether the settings fit a Jacobian with three rows and `n` columns.
pub open spec fn settings_fit(config: DiffIkConfig, n: int) -> bool {
    &&& config.task_projection matches Some(p) ==> p.wf() && p.cols == 3
    &&& n > 0 ==> config.max_joint_step.negated().at_most(config.max_joint_step)
}

/// Whether `e` and `j` are the error and Jacobian that count.
pub open spec fn projected<K: RobotMath>(
    k: &K,
    projection: Option<Matrix>,
    dx: Seq<Real>,
    jac: Matrix,
    e: Seq<Real>,
    j: Matrix,
) -> bool {
    match projection {
        Some(p) => matrix::applied(k, p, dx, e) && matrix::multiplied(k, p, jac, j),
        None => e == dx && same_entries(jac, j),
    }
}

/// Whether two matrices have the same entries.
pub open spec fn same_entries(a: Matrix, b: Matrix) -> bool {
    &&& b.sized(a.height(), a.cols as int)
    &&& forall|r: int, c: int|
        0 <= r < a.height() && 0 <= c < a.cols ==> #[trigger] b.at(r, c) == a.at(r, c)
}

/// Whether `e` and `j` are the error and Jacobian of the task, and `before` is the distance to the
/// target.
pub open spec fn is_task<K: RobotMath>(
    k: &K,
    config: DiffIkConfig,
    jac: Matrix,
    ee: Vector3,
    target: Vector3,
    e: Seq<Real>,
    j: Matrix,
    before: Real,
) -> bool {
    exists|off: Vector3, dx: Vector3|
        {
            &&& #[trigger] call_ensures(K::offset, (k, target, ee), off)
            &&& #[trigger] ik::times(k, off, config.gain, dx)
            &&& matrix::length_of(k, error::three(off), before)
            &&& projected(k, config.task_projection, error::three(dx), jac, e, j)
        }
}

fn compute_task<K: RobotMath>(k: &K, config: &DiffIkConfig, jac: &Matrix, ee: &Vector3, target: &Vector3) -> (r: (
    Vec<Real>,
    Matrix,
    Real,
))
    requires
        jac.sized(3, jac.cols as int),
        settings_fit(*config, jac.cols as int),
    ensures
        r.1.wf(),
        r.1.cols == jac.cols,
        r.0@.len() == r.1.height(),
        is_task(k, *config, *jac, *ee, *target, r.0@, r.1, r.2),
{
    let off = k.offset(*target, *ee);
    let dx = multiply_vector(k, off, config.gain);
    let before = length(k, &list_three(off));
    assert(call_ensures(K::offset, (k, *target, *ee), off));
    assert(ik::times(k, off, config.gain, dx));
    let full = list_three(dx);
    match &config.task_projection {
        Some(p) => {
            let e = apply(k, p, &full);
            let j = multiply(k, p, jac);
            assert(projected(k, config.task_projection, error::three(dx), *jac, e@, j));
            (e, j, before)
        },
        None => {
            let j = jac.copy();
            assert(projected(k, config.task_projection, error::three(dx), *jac, full@, j));
            (full, j, before)
        },
    }
}

/// Whether `dq` is the step for an error and Jacobian, each number kept small; none if it cannot be
/// computed.
pub open spec fn is_small_step<K: RobotMath>(
    k: &K,
    config: DiffIkConfig,
    j: Matrix,
    e: Seq<Real>,
    dq: Seq<Real>,
) -> bool {
    exists|full: Option<Vec<Real>>|
        {
            &&& #[trigger] ik_solver::is_step(
                k,
                j,
                e,
                config.damping,
                config.solver_method,
                config.joint_weights,
                full,
            )
            &&& dq.len() == j.cols
            &&& forall|i: int|
                0 <= i < dq.len() ==> #[trigger] dq[i] == (match full {
                    Some(x) => x@[i],
                    None => Real { bits: 0 },
                }).clamped(config.max_joint_step.negated(), config.max_joint_step)
        }
}

fn small_step<K: RobotMath>(k: &K, config: &DiffIkConfig, j: &Matrix, e: &Vec<Real>) -> (dq: Vec<Real>)
    requires
        j.wf(),
        j.cols > 0 ==> config.max_joint_step.negated().at_most(config.max_joint_step),
    ensures
        is_small_step(k, *config, *j, e@, dq@),
{
    let full = solver_step(
        k,
        j,
        e,
        &config.damping,
        config.solver_method,
        &config.joint_weights,
    );
    let ghost told = full;
    assert(ik_solver::is_step(
        k,
        *j,
        e@,
        config.damping,
        config.solver_method,
        config.joint_weights,
        told,
    ));
    let n: usize = j.cols;
    let x = match full {
        Some(x) => x,
        None => repeat(Real { bits: 0 }, n),
    };
    let lo = config.max_joint_step.neg();
    let mut dq: Vec<Real> = Vec::new();
    for i in 0..n
        invariant
            n == j.cols,
            n == x@.len(),
            lo == config.max_joint_step.negated(),
            n > 0 ==> lo.at_most(config.max_joint_step),
            dq@.len() == i,
            forall|y: int|
                0 <= y < i ==> #[trigger] dq@[y] == x@[y].clamped(lo, config.max_joint_step),
    {
        dq.push(x[i].clamp(lo, config.max_joint_step));
    }
    dq
}

/// One step that brings a point towards a target, given what each number does to the point.
pub fn differential_ik_step<K: RobotMath>(
    k: &K,
    jac_world: &Matrix,
    ee_pos: &Vector3,
    target_pos: &Vector3,
    config: &DiffIkConfig,
) -> (r: DiffIkResult)
    requires
        jac_world.sized(3, jac_world.cols as int),
        settings_fit(*config, jac_world.cols as int),
    ensures
        exists|e: Seq<Real>, j: Matrix|
            {
                &&& #[trigger] is_task(
                    k,
                    *config,
                    *jac_world,
                    *ee_pos,
                    *target_pos,
                    e,
                    j,
                    r.error_before,
                )
                &&& is_small_step(k, *config, j, e, r.dq@)
            },
{
    let (e, j, error_before) = compute_task(k, config, jac_world, ee_pos, target_pos);
    let dq = small_step(k, config, &j, &e);
    let r = DiffIkResult { dq, error_before };
    assert(is_task(k, *config, *jac_world, *ee_pos, *target_pos, e@, j, r.error_before));
    assert(is_small_step(k, *config, j, e@, r.dq@));
    r
}

/// Number of rows of the first `n` constraints.
pub open spec fn rows_of(cs: Seq<DiffIkConstraint>, n: int) -> int
    decreases n,
{
    if n <= 0 {
        0
    } else {
        rows_of(cs, n - 1) + cs[n - 1].jacobian.height()
    }
}

proof fn rows_of_is_monotone(cs: Seq<DiffIkConstraint>, m: int, n: int)
    requires
        0 <= m <= n,
    ensures
        0 <= rows_of(cs, m) <= rows_of(cs, n),
    decreases n,
{
    if m < n {
        rows_of_is_monotone(cs, m, n - 1);
    } else if n > 0 {
        rows_of_is_monotone(cs, m - 1, n - 1);
    }
}

/// Whether the rows of constraint `i` stand with their weight behind the first `at` rows, and their
/// errors with weight and opposite sign.
pub open spec fn constraint_at<K: RobotMath>(
    k: &K,
    cs: Seq<DiffIkConstraint>,
    i: int,
    at: int,
    j: Matrix,
    e: Seq<Real>,
) -> bool {
    let first = at + rows_of(cs, i);
    &&& forall|r: int, c: int|
        0 <= r < cs[i].jacobian.height() && 0 <= c < j.cols ==> call_ensures(
            K::product,
            (k, cs[i].weight, #[trigger] cs[i].jacobian.at(r, c)),
            j.at(first + r, c),
        )
    &&& forall|r: int|
        0 <= r < cs[i].jacobian.height() ==> call_ensures(
            K::product,
            (k, cs[i].weight.negated(), #[trigger] cs[i].error@[r]),
            e[first + r],
        )
}

/// Whether `j` and `e` are the rows and errors of a task with those of the first `n` constraints
/// below.
pub open spec fn task_with_constraints<K: RobotMath>(
    k: &K,
    cs: Seq<DiffIkConstraint>,
    n: int,
    task: Matrix,
    dx: Seq<Real>,
    j: Matrix,
    e: Seq<Real>,
) -> bool {
    &&& j.sized(task.height() + rows_of(cs, n), task.cols as int)
    &&& e.len() == task.height() + rows_of(cs, n)
    &&& forall|r: int| 0 <= r < task.height() ==> #[trigger] j.rows@[r] == task.rows@[r]
    &&& forall|r: int| 0 <= r < task.height() ==> #[trigger] e[r] == dx[r]
    &&& forall|i: int| 0 <= i < n ==> #[trigger] constraint_at(k, cs, i, task.height(), j, e)
}

/// Adds the rows and errors of a constraint.
fn push_constraint<K: RobotMath>(k: &K, c: &DiffIkConstraint, j: &mut Matrix, e: &mut Vec<Real>)
    requires
        old(j).wf(),
        old(e)@.len() == old(j).height(),
        c.fits(old(j).cols as int),
    ensures
        final(j).sized(old(j).height() + c.jacobian.height(), old(j).cols as int),
        final(e)@.len() == final(j).height(),
        forall|r: int| 0 <= r < old(j).height() ==> #[trigger] final(j).rows@[r] == old(j).rows@[r],
        forall|r: int| 0 <= r < old(j).height() ==> #[trigger] final(e)@[r] == old(e)@[r],
        forall|r: int, x: int|
            0 <= r < c.jacobian.height() && 0 <= x < old(j).cols ==> call_ensures(
                K::product,
                (k, c.weight, #[trigger] c.jacobian.at(r, x)),
                final(j).at(old(j).height() + r, x),
            ),
        forall|r: int|
            0 <= r < c.jacobian.height() ==> call_ensures(
                K::product,
                (k, c.weight.negated(), #[trigger] c.error@[r]),
                final(e)@[old(j).height() + r],
            ),
{
    let ghost j0 = *j;
    let ghost e0 = e@;
    let n: usize = j.cols;
    let minus = c.weight.neg();
    for r in 0..c.jacobian.rows.len()
        invariant
            n == j0.cols,
            n == j.cols,
            j0.wf(),
            e0.len() == j0.rows@.len(),
            c.fits(n as int),
            minus == c.weight.negated(),
            j.rows@.len() == j0.rows@.len() + r,
            e@.len() == j.rows@.len(),
            forall|x: int| 0 <= x < j.rows@.len() ==> (#[trigger] j.rows@[x])@.len() == n,
            forall|x: int| 0 <= x < j0.rows@.len() ==> #[trigger] j.rows@[x] == j0.rows@[x],
            forall|x: int| 0 <= x < e0.len() ==> #[trigger] e@[x] == e0[x],
            forall|y: int, x: int|
                0 <= y < r && 0 <= x < n ==> call_ensures(
                    K::product,
                    (k, c.weight, #[trigger] c.jacobian.at(y, x)),
                    j.rows@[j0.rows@.len() + y]@[x],
                ),
            forall|y: int|
                0 <= y < r ==> call_ensures(
                    K::product,
                    (k, minus, #[trigger] c.error@[y]),
                    e@[j0.rows@.len() + y],
                ),
    {
        let mut row: Vec<Real> = Vec::new();
        for x in 0..n
            invariant
                c.fits(n as int),
                r < c.jacobian.rows@.len(),
                row@.len() == x,
                forall|y: int|
                    0 <= y < x ==> call_ensures(
                        K::product,
                        (k, c.weight, c.jacobian.at(r as int, y)),
                        #[trigger] row@[y],
                    ),
        {
            row.push(k.product(c.weight, c.jacobian.get(r, x)));
        }
        let ghost before = j.rows@;
        let ghost errors = e@;
        let ghost top = row@;
        j.rows.push(row);
        e.push(k.product(minus, c.error[r]));
        assert forall|y: int, x: int| 0 <= y < r + 1 && 0 <= x < n implies call_ensures(
            K::product,
            (k, c.weight, #[trigger] c.jacobian.at(y, x)),
            j.rows@[j0.rows@.len() + y]@[x],
        ) by {
            if y < r {
                assert(j.rows@[j0.rows@.len() + y] == before[j0.rows@.len() + y]);
            } else {
                assert(top[x] == j.rows@[j0.rows@.len() + y]@[x]);
            }
        }
        assert forall|y: int| 0 <= y < r + 1 implies call_ensures(
            K::product,
            (k, minus, #[trigger] c.error@[y]),
            e@[j0.rows@.len() + y],
        ) by {
            if y < r {
                assert(e@[j0.rows@.len() + y] == errors[j0.rows@.len() + y]);
            }
        }
    }
}

fn add_constraints<K: RobotMath>(k: &K, cs: &Vec<DiffIkConstraint>, task: Matrix, dx: Vec<Real>) -> (r: (
    Matrix,
    Vec<Real>,
))
    requires
        task.wf(),
        dx@.len() == task.height(),
        forall|i: int| 0 <= i < cs@.len() ==> (#[trigger] cs@[i]).fits(task.cols as int),
    ensures
        task_with_constraints(k, cs@, cs@.len() as int, task, dx@, r.0, r.1@),
{
    let ghost t = task;
    let ghost d = dx@;
    let mut j = task;
    let mut e = dx;
    for i in 0..cs.len()
        invariant
            t.wf(),
            d.len() == t.height(),
            forall|i: int| 0 <= i < cs@.len() ==> (#[trigger] cs@[i]).fits(t.cols as int),
            task_with_constraints(k, cs@, i as int, t, d, j, e@),
    {
        let ghost j0 = j;
        let ghost e0 = e@;
        assert(cs@[i as int].fits(t.cols as int));
        proof {
            rows_of_is_monotone(cs@, 0, i as int);
        }
        push_constraint(k, &cs[i], &mut j, &mut e);
        assert forall|x: int| 0 <= x < i + 1 implies #[trigger] constraint_at(
            k,
            cs@,
            x,
            t.height(),
            j,
            e@,
        ) by {
            rows_of_is_monotone(cs@, 0, x);
            if x < i {
                rows_of_is_monotone(cs@, x + 1, i as int);
                assert(constraint_at(k, cs@, x, t.height(), j0, e0));
                let first = t.height() + rows_of(cs@, x);
                assert forall|r: int, c: int|
                    0 <= r < cs@[x].jacobian.height() && 0 <= c < j.cols implies call_ensures(
                    K::product,
                    (k, cs@[x].weight, #[trigger] cs@[x].jacobian.at(r, c)),
                    j.at(first + r, c),
                ) by {
                    assert(j.rows@[first + r] == j0.rows@[first + r]);
                }
                assert forall|r: int| 0 <= r < cs@[x].jacobian.height() implies call_ensures(
                    K::product,
                    (k, cs@[x].weight.negated(), #[trigger] cs@[x].error@[r]),
                    e@[first + r],
                ) by {
                    assert(e@[first + r] == e0[first + r]);
                }
            }
        }
    }
    (j, e)
}

/// One step that brings a point towards a target and works towards equalities.
pub fn differential_ik_step_with_constraints<K: RobotMath>(
    k: &K,
    jac_world: &Matrix,
    ee_pos: &Vector3,
    target_pos: &Vector3,
    constraints: &Vec<DiffIkConstraint>,
    config: &DiffIkConfig,
) -> (r: DiffIkResult)
    requires
        jac_world.sized(3, jac_world.cols as int),
        settings_fit(*config, jac_world.cols as int),
        forall|i: int|
            0 <= i < constraints@.len() ==> (#[trigger] constraints@[i]).fits(jac_world.cols as int),
    ensures
        exists|dx: Seq<Real>, task: Matrix, e: Seq<Real>, j: Matrix|
            {
                &&& #[trigger] is_task(
                    k,
                    *config,
                    *jac_world,
                    *ee_pos,
                    *target_pos,
                    dx,
                    task,
                    r.error_before,
                )
                &&& #[trigger] task_with_constraints(
                    k,
                    constraints@,
                    constraints@.len() as int,
                    task,
                    dx,
                    j,
                    e,
                )
                &&& is_small_step(k, *config, j, e, r.dq@)
            },
{
    let (dx, task, error_before) = compute_task(k, config, jac_world, ee_pos, target_pos);
    let ghost (d, t) = (dx@, task);
    let (j, e) = add_constraints(k, constraints, task, dx);
    let dq = small_step(k, config, &j, &e);
    let r = DiffIkResult { dq, error_before };
    assert(is_task(k, *config, *jac_world, *ee_pos, *target_pos, d, t, r.error_before));
    assert(task_with_constraints(k, constraints@, constraints@.len() as int, t, d, j, e@));
    assert(is_small_step(k, *config, j, e@, r.dq@));
    r
}

/// No number of a small step is larger than allowed.
pub proof fn small_steps_are_small<K: RobotMath>(
    k: &K,
    config: DiffIkConfig,
    j: Matrix,
    e: Seq<Real>,
    dq: Seq<Real>,
    i: int,
)
    requires
        is_small_step(k, config, j, e, dq),
        config.max_joint_step.negated().at_most(config.max_joint_step),
        0 <= i < dq.len(),
        !dq[i].nan(),
    ensures
        config.max_joint_step.negated().at_most(dq[i]),
        dq[i].at_most(config.max_joint_step),
{
    assert(dq[i] == dq[i]);
}

} // verus!
