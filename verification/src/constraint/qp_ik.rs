//! Inverse kinematics under constraints and hard bounds by quadratic programs.

use vstd::prelude::*;
use crate::constraint::goal;
use crate::constraint::ik;
use crate::constraint::jacobian;
use crate::least_squares;
use crate::limits;
use crate::manifold;
use crate::matrix;
use crate::constraint::goal::{compute_goal_rows, measure_goal, Goal, Measured};
use crate::constraint::ik::{pursue, ConstrainedIkResult, DAMPING, HALF_STEP, TOLERANCE, WEIGHT};
use crate::constraint::jacobian::compute_constraint_jacobian_from_data;
use crate::constraint::types::ConstraintModel;
use crate::data::{copy_slice, repeat};
use crate::descent::{Descent, Outcome};
use crate::frames::Frame;
use crate::least_squares::scale;
use crate::limits::{clamp_configuration, limited_numbers, JointLimits};
use crate::manifold::integrate;
use crate::matrix::{inner, Matrix};
use crate::model::Model;
use crate::number::{Real, Vector3, ONE};
use crate::pose::RobotMath;
use crate::spatial::Placement;

verus! {

/// Minus one.
pub const MINUS_ONE: u64 = 0xBFF0_0000_0000_0000;

/// Which solver of quadratic programs to use, by its number.
#[derive(Clone, Copy, PartialEq, Eq, Structural, Debug)]
pub struct QpSolver {
    pub backend: u32,
}

/// Solving quadratic programs in floating point.
///
/// Nothing is assumed of the results.
pub trait QpMath {
    /// The `x` that minimises `x·H x / 2 + c·x` under the bounds `A x <= b`, from a starting
    /// point, unless that fails.
    fn solve_qp(
        &self,
        h: &Matrix,
        c: &Vec<Real>,
        bounds: &Option<(Matrix, Vec<Real>)>,
        start: &Vec<Real>,
        max_iters: usize,
        solver: QpSolver,
    ) -> Option<Vec<Real>>;
}

/// Settings of inverse kinematics by quadratic programs.
#[derive(Clone, Debug)]
pub struct QpIkConfig {
    /// Largest number of iterations.
    pub max_iters: usize,
    /// Size of the error of the task that counts as reached.
    pub tol_task: Real,
    /// Size of errors of constraints that counts as met.
    pub tol_constraint: Real,
    /// Share of a step that is taken.
    pub step_size: Real,
    /// Damping of the steps.
    pub damping: Real,
    /// Weight of the constraints against the task.
    pub constraint_weight: Real,
    /// Limits that configurations keep within.
    pub joint_limits: Option<JointLimits>,
    /// Largest change of a number of the configuration in a step.
    pub max_step: Option<Real>,
    /// Largest number of iterations inside a quadratic program.
    pub qp_max_iters: usize,
    pub qp_solver: QpSolver,
}

impl Default for QpIkConfig {
    fn default() -> (r: Self)
        ensures
            r == (QpIkConfig {
                max_iters: 200,
                tol_task: Real { bits: TOLERANCE },
                tol_constraint: Real { bits: TOLERANCE },
                step_size: Real { bits: HALF_STEP },
                damping: Real { bits: DAMPING },
                constraint_weight: Real { bits: WEIGHT },
                joint_limits: None,
                max_step: None,
                qp_max_iters: 200,
                qp_solver: QpSolver { backend: 0 },
            }),
    {
        QpIkConfig {
            max_iters: 200,
            tol_task: Real { bits: TOLERANCE },
            tol_constraint: Real { bits: TOLERANCE },
            step_size: Real { bits: HALF_STEP },
            damping: Real { bits: DAMPING },
            constraint_weight: Real { bits: WEIGHT },
            joint_limits: None,
            max_step: None,
            qp_max_iters: 200,
            qp_solver: QpSolver { backend: 0 },
        }
    }
}

// ── Bounds ──

/// A bound on a step: that the number `x` of the configuration, which goes with the number `v`
/// of the velocity, stays below its upper or above its lower limit.
pub struct Bound {
    pub x: int,
    pub v: int,
    pub upper: bool,
}

/// The bounds that finite limits of a number ask for.
pub open spec fn bounds_of_number(lim: JointLimits, x: int, v: int) -> Seq<Bound> {
    (if lim.q_max@[x].finite() {
        seq![Bound { x, v, upper: true }]
    } else {
        Seq::empty()
    }) + (if lim.q_min@[x].finite() {
        seq![Bound { x, v, upper: false }]
    } else {
        Seq::empty()
    })
}

/// The bounds that the limits of the first `t` numbers of joint `i` ask for.
pub open spec fn bounds_of_joint(m: Model, lim: JointLimits, i: int, t: int) -> Seq<Bound>
    decreases t,
{
    if t <= 0 {
        Seq::empty()
    } else {
        bounds_of_joint(m, lim, i, t - 1) + bounds_of_number(
            lim,
            m.q_idx@[i] + t - 1,
            m.v_idx@[i] + t - 1,
        )
    }
}

/// The bounds that the limits of the first `n` joints ask for.
pub open spec fn bounds_of_joints(m: Model, lim: JointLimits, n: int) -> Seq<Bound>
    decreases n,
{
    if n <= 0 {
        Seq::empty()
    } else {
        bounds_of_joints(m, lim, n - 1) + bounds_of_joint(m, lim, n - 1, limits::limited(m.kind(n - 1)))
    }
}

/// Whether row `r` of `a x <= b` states a bound for steps from `q`.
pub open spec fn states<K: RobotMath>(
    k: &K,
    q: Seq<Real>,
    lim: JointLimits,
    bound: Bound,
    a: Matrix,
    b: Seq<Real>,
    r: int,
) -> bool {
    &&& forall|c: int|
        0 <= c < a.cols ==> #[trigger] a.at(r, c) == if c != bound.v {
            Real::zero()
        } else if bound.upper {
            Real { bits: ONE }
        } else {
            Real { bits: MINUS_ONE }
        }
    &&& if bound.upper {
        call_ensures(K::difference, (k, lim.q_max@[bound.x], q[bound.x]), b[r])
    } else {
        call_ensures(K::difference, (k, q[bound.x], lim.q_min@[bound.x]), b[r])
    }
}

/// Whether the rows of `a x <= b` state bounds for steps from `q`.
pub open spec fn states_all<K: RobotMath>(
    k: &K,
    nv: int,
    q: Seq<Real>,
    lim: JointLimits,
    bounds: Seq<Bound>,
    a: Matrix,
    b: Seq<Real>,
) -> bool {
    &&& a.sized(bounds.len() as int, nv)
    &&& b.len() == bounds.len()
    &&& forall|r: int| 0 <= r < bounds.len() ==> #[trigger] states(k, q, lim, bounds[r], a, b, r)
}

fn push_bound<K: RobotMath>(
    k: &K,
    nv: usize,
    q: &[Real],
    lim: &JointLimits,
    x: usize,
    v: usize,
    upper: bool,
    Ghost(bounds): Ghost<Seq<Bound>>,
    a: &mut Matrix,
    b: &mut Vec<Real>,
)
    requires
        x < q@.len(),
        x < lim.q_min@.len(),
        x < lim.q_max@.len(),
        v < nv,
        states_all(k, nv as int, q@, *lim, bounds, *old(a), old(b)@),
    ensures
        states_all(
            k,
            nv as int,
            q@,
            *lim,
            bounds.push(Bound { x: x as int, v: v as int, upper }),
            *final(a),
            final(b)@,
        ),
{
    let ghost a0 = *a;
    let ghost b0 = b@;
    let mut row = repeat(Real::zero(), nv);
    if upper {
        row.set(v, Real { bits: ONE });
        b.push(k.difference(lim.q_max[x], q[x]));
    } else {
        row.set(v, Real { bits: MINUS_ONE });
        b.push(k.difference(q[x], lim.q_min[x]));
    }
    a.rows.push(row);
    let ghost all = bounds.push(Bound { x: x as int, v: v as int, upper });
    assert forall|r: int| 0 <= r < a.rows@.len() implies (#[trigger] a.rows@[r])@.len() == a.cols by {
        if r < bounds.len() {
            assert(a.rows@[r] == a0.rows@[r]);
        }
    }
    assert forall|r: int| 0 <= r < all.len() implies #[trigger] states(k, q@, *lim, all[r], *a, b@, r) by {
        if r < bounds.len() {
            assert(states(k, q@, *lim, bounds[r], a0, b0, r));
            assert forall|c: int| 0 <= c < a.cols implies #[trigger] a.at(r, c) == a0.at(r, c) by {
                assert(a.rows@[r] == a0.rows@[r]);
            }
        } else {
            assert forall|c: int| 0 <= c < a.cols implies #[trigger] a.at(r, c) == row@[c] by {}
        }
    }
}

/// Bounds that keep steps within the limits of the joints, as `a x <= b`; infinite limits ask
/// for none.
pub fn build_joint_limit_inequalities<K: RobotMath>(k: &K, model: &Model, q: &[Real], limits: &JointLimits) -> (r: (
    Matrix,
    Vec<Real>,
))
    requires
        model.wf(),
        q@.len() == model.nq,
        limits.fits(*model),
    ensures
        states_all(
            k,
            model.nv as int,
            q@,
            *limits,
            bounds_of_joints(*model, *limits, model.joints@.len() as int),
            r.0,
            r.1@,
        ),
{
    let nv: usize = model.nv;
    let mut a = Matrix { rows: Vec::new(), cols: nv };
    let mut b: Vec<Real> = Vec::new();
    let n: usize = model.joints.len();
    for i in 0..n
        invariant
            n == model.joints@.len(),
            nv == model.nv,
            model.wf(),
            q@.len() == model.nq,
            limits.fits(*model),
            states_all(
                k,
                nv as int,
                q@,
                *limits,
                bounds_of_joints(*model, *limits, i as int),
                a,
                b@,
            ),
    {
        proof {
            model.ranges(i as int);
        }
        let ghost before = bounds_of_joints(*model, *limits, i as int);
        let qi: usize = model.q_idx[i];
        let vi: usize = model.v_idx[i];
        let m: usize = limited_numbers(&model.joints[i].joint_type);
        assert(before + bounds_of_joint(*model, *limits, i as int, 0) =~= before);
        for t in 0..m
            invariant
                n == model.joints@.len(),
                i < n,
                nv == model.nv,
                model.wf(),
                q@.len() == model.nq,
                limits.fits(*model),
                qi == model.q_idx@[i as int],
                vi == model.v_idx@[i as int],
                m == limits::limited(model.kind(i as int)),
                qi + m <= model.nq,
                vi + m <= model.nv,
                states_all(
                    k,
                    nv as int,
                    q@,
                    *limits,
                    before + bounds_of_joint(*model, *limits, i as int, t as int),
                    a,
                    b@,
                ),
        {
            let x: usize = qi + t;
            let v: usize = vi + t;
            let ghost mut done = before + bounds_of_joint(*model, *limits, i as int, t as int);
            let ghost start = done;
            if limits.q_max[x].is_finite() {
                push_bound(k, nv, q, limits, x, v, true, Ghost(done), &mut a, &mut b);
                proof {
                    done = done.push(Bound { x: x as int, v: v as int, upper: true });
                }
            }
            if limits.q_min[x].is_finite() {
                push_bound(k, nv, q, limits, x, v, false, Ghost(done), &mut a, &mut b);
                proof {
                    done = done.push(Bound { x: x as int, v: v as int, upper: false });
                }
            }
            assert(done =~= start + bounds_of_number(*limits, x as int, v as int));
            assert(before + bounds_of_joint(*model, *limits, i as int, t + 1) =~= done);
        }
    }
    (a, b)
}

/// Whether `a x <= b` states that no number of `x` is larger than the step.
pub open spec fn step_bounds(nv: int, max_step: Real, a: Matrix, b: Seq<Real>) -> bool {
    &&& a.sized(2 * nv, nv)
    &&& b == Seq::new((2 * nv) as nat, |i: int| max_step)
    &&& forall|r: int, c: int|
        0 <= r < 2 * nv && 0 <= c < nv ==> #[trigger] a.at(r, c) == if c == r {
            Real { bits: ONE }
        } else if c == r - nv {
            Real { bits: MINUS_ONE }
        } else {
            Real::zero()
        }
}

/// Bounds on the numbers of a step, as `a x <= b`.
pub fn build_max_step_inequalities(nv: usize, max_step: Real) -> (r: (Matrix, Vec<Real>))
    ensures
        step_bounds(nv as int, max_step, r.0, r.1@),
{
    let mut a = Matrix { rows: Vec::new(), cols: nv };
    let mut b: Vec<Real> = Vec::new();
    for i in 0..nv
        invariant
            a.cols == nv,
            a.rows@.len() == i,
            b@ == Seq::new(i as nat, |j: int| max_step),
            forall|r: int| 0 <= r < i ==> (#[trigger] a.rows@[r])@.len() == nv,
            forall|r: int, c: int|
                0 <= r < i && 0 <= c < nv ==> #[trigger] a.at(r, c) == if c == r {
                    Real { bits: ONE }
                } else {
                    Real::zero()
                },
    {
        let ghost a0 = a;
        let mut row = repeat(Real::zero(), nv);
        row.set(i, Real { bits: ONE });
        a.rows.push(row);
        b.push(max_step);
        assert(b@ =~= Seq::new((i + 1) as nat, |j: int| max_step));
        assert forall|r: int, c: int| 0 <= r < i + 1 && 0 <= c < nv implies #[trigger] a.at(r, c)
            == if c == r {
            Real { bits: ONE }
        } else {
            Real::zero()
        } by {
            if r < i {
                assert(a.at(r, c) == a0.at(r, c));
            }
        }
    }
    for i in 0..nv
        invariant
            a.cols == nv,
            a.rows@.len() == nv + i,
            b@ == Seq::new((nv + i) as nat, |j: int| max_step),
            forall|r: int| 0 <= r < nv + i ==> (#[trigger] a.rows@[r])@.len() == nv,
            forall|r: int, c: int|
                0 <= r < nv + i && 0 <= c < nv ==> #[trigger] a.at(r, c) == if c == r {
                    Real { bits: ONE }
                } else if c == r - nv {
                    Real { bits: MINUS_ONE }
                } else {
                    Real::zero()
                },
    {
        let ghost a0 = a;
        let mut row = repeat(Real::zero(), nv);
        row.set(i, Real { bits: MINUS_ONE });
        a.rows.push(row);
        b.push(max_step);
        assert(b@ =~= Seq::new((nv + i + 1) as nat, |j: int| max_step));
        assert forall|r: int, c: int| 0 <= r < nv + i + 1 && 0 <= c < nv implies #[trigger] a.at(r, c)
            == if c == r {
            Real { bits: ONE }
        } else if c == r - nv {
            Real { bits: MINUS_ONE }
        } else {
            Real::zero()
        } by {
            if r < nv + i {
                assert(a.at(r, c) == a0.at(r, c));
            }
        }
    }
    (a, b)
}

/// Number of rows of the first `n` parts.
pub open spec fn height_before(parts: Seq<(Matrix, Vec<Real>)>, n: int) -> int
    decreases n,
{
    if n <= 0 {
        0
    } else {
        height_before(parts, n - 1) + parts[n - 1].0.height()
    }
}

/// Whether the rows of part `i` stand where they have to in `a` and `b`.
pub open spec fn part_at(parts: Seq<(Matrix, Vec<Real>)>, i: int, a: Matrix, b: Seq<Real>) -> bool {
    let at = height_before(parts, i);
    &&& forall|r: int, c: int|
        0 <= r < parts[i].0.height() && 0 <= c < a.cols ==> a.at(at + r, c) == #[trigger] parts[i].0.at(
            r,
            c,
        )
    &&& forall|r: int| 0 <= r < parts[i].0.height() ==> b[at + r] == #[trigger] parts[i].1@[r]
}

/// Whether `a` and `b` are the first `n` parts, one below the other.
pub open spec fn stacks(parts: Seq<(Matrix, Vec<Real>)>, n: int, a: Matrix, b: Seq<Real>) -> bool {
    &&& a.wf()
    &&& a.height() == height_before(parts, n)
    &&& b.len() == height_before(parts, n)
    &&& forall|i: int| 0 <= i < n ==> #[trigger] part_at(parts, i, a, b)
}

/// Whether a part has a right-hand side for each of its rows.
pub open spec fn whole(part: (Matrix, Vec<Real>), cols: usize) -> bool {
    &&& part.0.wf()
    &&& part.0.cols == cols
    &&& part.1@.len() == part.0.height()
}

proof fn heights_are_monotone(parts: Seq<(Matrix, Vec<Real>)>, m: int, n: int)
    requires
        0 <= m <= n,
    ensures
        0 <= height_before(parts, m) <= height_before(parts, n),
    decreases n,
{
    if m < n {
        heights_are_monotone(parts, m, n - 1);
    } else if n > 0 {
        heights_are_monotone(parts, m - 1, n - 1);
    }
}

/// Stacks bounds one below the other.
pub fn stack_inequalities(pairs: &Vec<(Matrix, Vec<Real>)>) -> (r: (Matrix, Vec<Real>))
    requires
        forall|i: int| 0 <= i < pairs@.len() ==> whole(#[trigger] pairs@[i], pairs@[0].0.cols),
    ensures
        stacks(pairs@, pairs@.len() as int, r.0, r.1@),
        r.0.cols == if pairs@.len() == 0 {
            0
        } else {
            pairs@[0].0.cols
        },
{
    let cols: usize = if pairs.len() == 0 {
        0
    } else {
        pairs[0].0.cols
    };
    let mut a = Matrix { rows: Vec::new(), cols };
    let mut b: Vec<Real> = Vec::new();
    for i in 0..pairs.len()
        invariant
            forall|i: int| 0 <= i < pairs@.len() ==> whole(#[trigger] pairs@[i], cols),
            a.cols == cols,
            stacks(pairs@, i as int, a, b@),
    {
        let ghost a0 = a;
        let ghost b0 = b@;
        assert(whole(pairs@[i as int], cols));
        a.append_rows(&pairs[i].0);
        let m: usize = pairs[i].1.len();
        for r in 0..m
            invariant
                i < pairs@.len(),
                m == pairs@[i as int].1@.len(),
                b@ == b0 + pairs@[i as int].1@.take(r as int),
        {
            b.push(pairs[i].1[r]);
            assert(b@ =~= b0 + pairs@[i as int].1@.take(r + 1));
        }
        assert(b@ =~= b0 + pairs@[i as int].1@);
        assert forall|j: int| 0 <= j < i + 1 implies #[trigger] part_at(pairs@, j, a, b@) by {
            heights_are_monotone(pairs@, 0, j);
            if j < i {
                heights_are_monotone(pairs@, j + 1, i as int);
                assert(part_at(pairs@, j, a0, b0));
                let at = height_before(pairs@, j);
                assert forall|r: int, c: int|
                    0 <= r < pairs@[j].0.height() && 0 <= c < a.cols implies a.at(at + r, c)
                    == #[trigger] pairs@[j].0.at(r, c) by {
                    assert(a.at(at + r, c) == a0.at(at + r, c));
                }
                assert forall|r: int| 0 <= r < pairs@[j].0.height() implies b@[at + r]
                    == #[trigger] pairs@[j].1@[r] by {
                    assert(b@[at + r] == b0[at + r]);
                }
            }
        }
    }
    (a, b)
}

/// Whether `parts` are the bounds that the settings ask for at `q`.
pub open spec fn bound_parts<K: RobotMath>(
    k: &K,
    m: Model,
    q: Seq<Real>,
    config: QpIkConfig,
    parts: Seq<(Matrix, Vec<Real>)>,
) -> bool {
    let first: int = if config.joint_limits is Some {
        1
    } else {
        0
    };
    &&& parts.len() == first + if config.max_step is Some {
        1int
    } else {
        0int
    }
    &&& config.joint_limits matches Some(lim) ==> states_all(
        k,
        m.nv as int,
        q,
        lim,
        bounds_of_joints(m, lim, m.joints@.len() as int),
        parts[0].0,
        parts[0].1@,
    )
    &&& config.max_step matches Some(s) ==> step_bounds(m.nv as int, s, parts[first].0, parts[first].1@)
}

/// Whether `r` is what bounds on a step leave for the whole of which it is a share.
pub open spec fn eased<K: RobotMath>(k: &K, step_size: Real, b: Seq<Real>, r: Seq<Real>) -> bool {
    if Real::zero().below(step_size) && step_size.below(Real::one()) {
        &&& r.len() == b.len()
        &&& forall|i: int| 0 <= i < b.len() ==> call_ensures(K::quotient, (k, b[i], step_size), #[trigger] r[i])
    } else {
        r == b
    }
}

/// Whether `r` are the given bounds, stacked and eased.
pub open spec fn stacked_bounds<K: RobotMath>(
    k: &K,
    config: QpIkConfig,
    parts: Seq<(Matrix, Vec<Real>)>,
    r: (Matrix, Vec<Real>),
) -> bool {
    exists|b: Seq<Real>| #[trigger]
        stacks(parts, parts.len() as int, r.0, b) && eased(k, config.step_size, b, r.1@)
}

/// Whether `r` are the bounds on a step from `q`, if the settings ask for any.
pub open spec fn bounds_at<K: RobotMath>(
    k: &K,
    m: Model,
    q: Seq<Real>,
    config: QpIkConfig,
    r: Option<(Matrix, Vec<Real>)>,
) -> bool {
    exists|parts: Seq<(Matrix, Vec<Real>)>|
        {
            &&& #[trigger] bound_parts(k, m, q, config, parts)
            &&& match r {
                Some(x) => parts.len() > 0 && stacked_bounds(k, config, parts, x),
                None => parts.len() == 0,
            }
        }
}

fn build_step_inequalities<K: RobotMath>(k: &K, model: &Model, q: &[Real], config: &QpIkConfig) -> (r: Option<
    (Matrix, Vec<Real>),
>)
    requires
        model.wf(),
        q@.len() == model.nq,
        config.joint_limits matches Some(lim) ==> lim.fits(*model),
    ensures
        bounds_at(k, *model, q@, *config, r),
{
    let mut parts: Vec<(Matrix, Vec<Real>)> = Vec::new();
    if let Some(lim) = &config.joint_limits {
        parts.push(build_joint_limit_inequalities(k, model, q, lim));
    }
    if let Some(s) = config.max_step {
        parts.push(build_max_step_inequalities(model.nv, s));
    }
    assert(bound_parts(k, *model, q@, *config, parts@));
    if parts.len() == 0 {
        return None;
    }
    assert forall|i: int| 0 <= i < parts@.len() implies whole(#[trigger] parts@[i], parts@[0].0.cols) by {
        assert(parts@[i].0.cols == model.nv);
    }
    let (a, b) = stack_inequalities(&parts);
    let ghost raw = b@;
    let c = if Real::zero().lt(config.step_size) && config.step_size.lt(Real::one()) {
        let mut c: Vec<Real> = Vec::new();
        for i in 0..b.len()
            invariant
                c@.len() == i,
                forall|j: int|
                    0 <= j < i ==> call_ensures(
                        K::quotient,
                        (k, b@[j], config.step_size),
                        #[trigger] c@[j],
                    ),
        {
            c.push(k.quotient(b[i], config.step_size));
        }
        c
    } else {
        b
    };
    assert(eased(k, config.step_size, raw, c@));
    let r = (a, c);
    assert(stacks(parts@, parts@.len() as int, r.0, raw));
    assert(stacked_bounds(k, *config, parts@, r));
    assert(bounds_at(k, *model, q@, *config, Some(r)));
    Some(r)
}

// ── The objective ──

/// Whether `x` is the scalar product of two columns of the constraints, times the weight.
pub open spec fn weighed<K: RobotMath>(k: &K, a: Seq<Real>, b: Seq<Real>, weight: Real, x: Real) -> bool {
    exists|p: Real| #[trigger] matrix::inner_of(k, a, b, p) && call_ensures(K::product, (k, p, weight), x)
}

fn weigh_columns<K: RobotMath>(k: &K, a: &Vec<Real>, b: &Vec<Real>, weight: Real) -> (x: Real)
    ensures
        weighed(k, a@, b@, weight, x),
{
    let p = inner(k, a, b);
    assert(matrix::inner_of(k, a@, b@, p));
    k.product(p, weight)
}

/// Whether `x` is `y`, plus the damping on the diagonal.
pub open spec fn damped<K: RobotMath>(k: &K, y: Real, damping: Real, i: int, j: int, x: Real) -> bool {
    if i == j {
        call_ensures(K::sum, (k, y, damping), x)
    } else {
        x == y
    }
}

/// Whether `x` is the entry at `(i, j)` of `JtᵀJt + w Jcᵀ Jc + damping I`.
pub open spec fn objective_entry<'a, K: RobotMath>(
    k: &K,
    goal: Goal<'a>,
    task: Matrix,
    jc: Matrix,
    weight: Real,
    damping: Real,
    i: int,
    j: int,
    x: Real,
) -> bool {
    if goal is Constraints {
        exists|p: Real| #[trigger]
            weighed(k, jc.column(i), jc.column(j), weight, p) && damped(k, p, damping, i, j, x)
    } else {
        exists|p: Real, y: Real|
            {
                &&& #[trigger] matrix::inner_of(k, task.column(i), task.column(j), p)
                &&& #[trigger] damped(k, p, damping, i, j, y)
                &&& if jc.height() == 0 {
                    x == y
                } else {
                    exists|z: Real| #[trigger]
                        weighed(k, jc.column(i), jc.column(j), weight, z) && call_ensures(
                            K::sum,
                            (k, y, z),
                            x,
                        )
                }
            }
    }
}

fn compute_damped<K: RobotMath>(k: &K, y: Real, damping: Real, i: usize, j: usize) -> (x: Real)
    ensures
        damped(k, y, damping, i as int, j as int, x),
{
    if i == j {
        k.sum(y, damping)
    } else {
        y
    }
}

fn compute_objective_entry<'a, K: RobotMath>(
    k: &K,
    goal: &Goal<'a>,
    task: &Matrix,
    jc: &Matrix,
    weight: Real,
    damping: Real,
    i: usize,
    j: usize,
) -> (x: Real)
    requires
        task.wf(),
        jc.wf(),
        i < task.cols,
        j < task.cols,
        task.cols == jc.cols,
    ensures
        objective_entry(k, *goal, *task, *jc, weight, damping, i as int, j as int, x),
{
    let ci = jc.copy_column(i);
    let cj = jc.copy_column(j);
    match goal {
        Goal::Constraints => {
            let p = weigh_columns(k, &ci, &cj, weight);
            assert(weighed(k, jc.column(i as int), jc.column(j as int), weight, p));
            compute_damped(k, p, damping, i, j)
        },
        _ => {
            let ti = task.copy_column(i);
            let tj = task.copy_column(j);
            let p = inner(k, &ti, &tj);
            let y = compute_damped(k, p, damping, i, j);
            assert(matrix::inner_of(k, task.column(i as int), task.column(j as int), p));
            assert(damped(k, p, damping, i as int, j as int, y));
            if jc.rows.len() == 0 {
                y
            } else {
                let z = weigh_columns(k, &ci, &cj, weight);
                assert(weighed(k, jc.column(i as int), jc.column(j as int), weight, z));
                k.sum(y, z)
            }
        },
    }
}

/// Whether `h` is the matrix of the objective.
pub open spec fn objective_matrix<'a, K: RobotMath>(
    k: &K,
    goal: Goal<'a>,
    task: Matrix,
    jc: Matrix,
    weight: Real,
    damping: Real,
    h: Matrix,
) -> bool {
    &&& h.sized(jc.cols as int, jc.cols as int)
    &&& forall|i: int, j: int|
        0 <= i < jc.cols && 0 <= j < jc.cols ==> objective_entry(
            k,
            goal,
            task,
            jc,
            weight,
            damping,
            i,
            j,
            #[trigger] h.at(i, j),
        )
}

fn compute_objective_matrix<'a, K: RobotMath>(
    k: &K,
    goal: &Goal<'a>,
    task: &Matrix,
    jc: &Matrix,
    weight: Real,
    damping: Real,
) -> (h: Matrix)
    requires
        task.wf(),
        jc.wf(),
        task.cols == jc.cols,
    ensures
        objective_matrix(k, *goal, *task, *jc, weight, damping, h),
{
    let n: usize = jc.cols;
    let mut rows: Vec<Vec<Real>> = Vec::new();
    for i in 0..n
        invariant
            task.wf(),
            jc.wf(),
            task.cols == n,
            jc.cols == n,
            rows@.len() == i,
            forall|x: int| 0 <= x < i ==> (#[trigger] rows@[x])@.len() == n,
            forall|x: int, y: int|
                0 <= x < i && 0 <= y < n ==> objective_entry(
                    k,
                    *goal,
                    *task,
                    *jc,
                    weight,
                    damping,
                    x,
                    y,
                    #[trigger] rows@[x]@[y],
                ),
    {
        let mut row: Vec<Real> = Vec::new();
        for j in 0..n
            invariant
                task.wf(),
                jc.wf(),
                task.cols == n,
                jc.cols == n,
                i < n,
                row@.len() == j,
                forall|y: int|
                    0 <= y < j ==> objective_entry(
                        k,
                        *goal,
                        *task,
                        *jc,
                        weight,
                        damping,
                        i as int,
                        y,
                        #[trigger] row@[y],
                    ),
        {
            row.push(compute_objective_entry(k, goal, task, jc, weight, damping, i, j));
        }
        rows.push(row);
    }
    Matrix { rows, cols: n }
}

/// Whether `x` is the number `i` of `-Jtᵀ et + w Jcᵀ ec`.
pub open spec fn objective_number<'a, K: RobotMath>(
    k: &K,
    goal: Goal<'a>,
    task: Matrix,
    jc: Matrix,
    s: Measured,
    weight: Real,
    i: int,
    x: Real,
) -> bool {
    if goal is Constraints {
        weighed(k, jc.column(i), s.errors@, weight, x)
    } else {
        exists|p: Real|
            {
                &&& #[trigger] matrix::inner_of(k, task.column(i), s.task@, p)
                &&& if jc.height() == 0 {
                    x == p.negated()
                } else {
                    exists|z: Real| #[trigger]
                        weighed(k, jc.column(i), s.errors@, weight, z) && call_ensures(
                            K::sum,
                            (k, p.negated(), z),
                            x,
                        )
                }
            }
    }
}

/// Whether `c` is the vector of the objective.
pub open spec fn objective_vector<'a, K: RobotMath>(
    k: &K,
    goal: Goal<'a>,
    task: Matrix,
    jc: Matrix,
    s: Measured,
    weight: Real,
    c: Seq<Real>,
) -> bool {
    &&& c.len() == jc.cols
    &&& forall|i: int|
        0 <= i < jc.cols ==> objective_number(k, goal, task, jc, s, weight, i, #[trigger] c[i])
}

fn compute_objective_vector<'a, K: RobotMath>(
    k: &K,
    goal: &Goal<'a>,
    task: &Matrix,
    jc: &Matrix,
    s: &Measured,
    weight: Real,
) -> (c: Vec<Real>)
    requires
        task.wf(),
        jc.wf(),
        task.cols == jc.cols,
    ensures
        objective_vector(k, *goal, *task, *jc, *s, weight, c@),
{
    let mut c: Vec<Real> = Vec::new();
    for i in 0..jc.cols
        invariant
            task.wf(),
            jc.wf(),
            task.cols == jc.cols,
            c@.len() == i,
            forall|j: int|
                0 <= j < i ==> objective_number(k, *goal, *task, *jc, *s, weight, j, #[trigger] c@[j]),
    {
        let ci = jc.copy_column(i);
        let x = match goal {
            Goal::Constraints => weigh_columns(k, &ci, &s.errors, weight),
            _ => {
                let ti = task.copy_column(i);
                let p = inner(k, &ti, &s.task);
                assert(matrix::inner_of(k, task.column(i as int), s.task@, p));
                if jc.rows.len() == 0 {
                    p.neg()
                } else {
                    let z = weigh_columns(k, &ci, &s.errors, weight);
                    assert(weighed(k, jc.column(i as int), s.errors@, weight, z));
                    k.sum(p.neg(), z)
                }
            },
        };
        assert(objective_number(k, *goal, *task, *jc, *s, weight, i as int, x));
        c.push(x);
    }
    c
}

// ── Iteration ──

/// A task and constraints, and the way towards them by quadratic programs.
pub struct QpDescent<'a, K> {
    pub k: &'a K,
    pub model: &'a Model,
    pub cm: &'a ConstraintModel,
    pub config: &'a QpIkConfig,
    pub goal: Goal<'a>,
}

/// Whether `r` is the configuration `q` moved into the limits, if there are any.
pub open spec fn kept(m: Model, limits: Option<JointLimits>, q: Seq<Real>, r: Seq<Real>) -> bool {
    match limits {
        Some(lim) => limits::clamps(m, lim, q, r),
        None => r == q,
    }
}

/// Moves a configuration into the limits, if there are any.
pub fn keep(model: &Model, limits: &Option<JointLimits>, q: Vec<Real>) -> (r: Vec<Real>)
    requires
        model.wf(),
        q@.len() == model.nq,
        limits matches Some(lim) ==> lim.fits(*model),
    ensures
        r@.len() == model.nq,
        kept(*model, *limits, q@, r@),
        limits matches Some(lim) ==> limits::within(*model, *lim, r@),
{
    match limits {
        Some(lim) => {
            let r = clamp_configuration(model, q.as_slice(), lim);
            proof {
                limits::clamped_configuration_is_within(*model, *lim, q@, r@);
            }
            r
        },
        None => q,
    }
}

/// Whether a step from `q` by the answer of a quadratic program comes to `o`: without an answer
/// of the right size there is nowhere to go.
pub open spec fn qp_step<K: RobotMath>(
    k: &K,
    m: Model,
    q: Seq<Real>,
    config: QpIkConfig,
    answer: Option<Vec<Real>>,
    o: Outcome,
) -> bool {
    if answer is Some && answer->0@.len() == m.nv {
        exists|dq: Seq<Real>, next: Seq<Real>|
            {
                &&& #[trigger] least_squares::scaled(k, answer->0@, config.step_size, dq)
                &&& #[trigger] manifold::integrated(k, m, q, dq, Real::one(), next)
                &&& o matches Outcome::Move(r) && kept(m, config.joint_limits, next, r@)
            }
    } else {
        o == Outcome::Rest
    }
}

/// Takes a step from `q` by the answer of a quadratic program.
pub fn take_qp_step<K: RobotMath>(
    k: &K,
    model: &Model,
    q: &Vec<Real>,
    config: &QpIkConfig,
    answer: Option<Vec<Real>>,
) -> (o: Outcome)
    requires
        model.wf(),
        q@.len() == model.nq,
        config.joint_limits matches Some(lim) ==> lim.fits(*model),
    ensures
        qp_step(k, *model, q@, *config, answer, o),
        o matches Outcome::Move(r) ==> r@.len() == model.nq,
        o matches Outcome::Move(r) ==> (config.joint_limits matches Some(lim) ==> limits::within(*model, lim, r@)),
{
    match answer {
        Some(x) => {
            if x.len() != model.nv {
                return Outcome::Rest;
            }
            let dq = scale(k, &x, config.step_size);
            let next = integrate(k, model, q.as_slice(), dq.as_slice(), Real::one());
            assert(least_squares::scaled(k, answer->0@, config.step_size, dq@));
            assert(manifold::integrated(k, *model, q@, dq@, Real::one(), next@));
            Outcome::Move(keep(model, &config.joint_limits, next))
        },
        None => Outcome::Rest,
    }
}

/// Whether `answer` is that of the quadratic program of a step.
pub open spec fn qp_answer<'a, K: RobotMath + QpMath>(
    d: QpDescent<'a, K>,
    q: Seq<Real>,
    s: Measured,
    answer: Option<Vec<Real>>,
) -> bool {
    exists|
        task: Matrix,
        jc: Matrix,
        weight: Real,
        damping: Real,
        h: Matrix,
        c: Vec<Real>,
        bounds: Option<(Matrix, Vec<Real>)>,
        start: Vec<Real>,
    |
        {
            &&& #[trigger] goal::goal_rows(d.k, *d.model, s.data, d.goal, task)
            &&& #[trigger] jacobian::stacked_rows(
                d.k,
                *d.model,
                s.data,
                d.cm.constraints@,
                d.cm.constraints@.len() as int,
                jc,
            )
            &&& call_ensures(
                K::product,
                (d.k, d.config.constraint_weight, d.config.constraint_weight),
                weight,
            )
            &&& call_ensures(K::product, (d.k, d.config.damping, d.config.damping), damping)
            &&& #[trigger] objective_matrix(d.k, d.goal, task, jc, weight, damping, h)
            &&& objective_vector(d.k, d.goal, task, jc, s, weight, c@)
            &&& bounds_at(d.k, *d.model, q, *d.config, bounds)
            &&& start@ == Seq::new(d.model.nv as nat, |i: int| Real::zero())
            &&& #[trigger] call_ensures(
                K::solve_qp,
                (d.k, &h, &c, &bounds, &start, d.config.qp_max_iters, d.config.qp_solver),
                answer,
            )
        }
}

impl<'a, K: RobotMath + QpMath> Descent for QpDescent<'a, K> {
    type State = Measured;

    open spec fn valid(&self) -> bool {
        &&& self.model.wf()
        &&& self.cm.fits(self.model.joints@.len() as int)
        &&& self.goal.fits(self.model.joints@.len() as int)
        &&& self.config.joint_limits matches Some(lim) ==> lim.fits(*self.model)
    }

    open spec fn fits(&self, q: Seq<Real>) -> bool {
        &&& q.len() == self.model.nq
        &&& self.config.joint_limits matches Some(lim) ==> limits::within(*self.model, lim, q)
    }

    open spec fn measured(&self, q: Seq<Real>, s: Measured) -> bool {
        goal::is_measured(self.k, *self.model, *self.cm, self.goal, q, s)
    }

    open spec fn reached(&self, s: Measured) -> bool {
        if self.goal is Constraints {
            s.error_norm.at_most(self.config.tol_constraint)
        } else {
            &&& s.task_norm.at_most(self.config.tol_task)
            &&& self.cm.constraints@.len() == 0 || s.error_norm.at_most(self.config.tol_constraint)
        }
    }

    open spec fn stepped(&self, q: Seq<Real>, s: Measured, o: Outcome) -> bool {
        exists|answer: Option<Vec<Real>>| #[trigger]
            qp_answer(*self, q, s, answer) && qp_step(self.k, *self.model, q, *self.config, answer, o)
    }

    fn measure(&self, q: &Vec<Real>) -> (s: Measured) {
        measure_goal(self.k, self.model, self.cm, &self.goal, q)
    }

    fn test(&self, s: &Measured) -> (r: bool) {
        match self.goal {
            Goal::Constraints => s.error_norm.le(self.config.tol_constraint),
            _ => s.task_norm.le(self.config.tol_task) && (self.cm.constraints.len() == 0
                || s.error_norm.le(self.config.tol_constraint)),
        }
    }

    fn step(&self, q: &Vec<Real>, s: &Measured) -> (o: Outcome) {
        let k = self.k;
        let config = self.config;
        let task = compute_goal_rows(k, self.model, &s.data, &self.goal);
        let jc = compute_constraint_jacobian_from_data(k, self.model, &s.data, self.cm);
        let weight = k.product(config.constraint_weight, config.constraint_weight);
        let damping = k.product(config.damping, config.damping);
        let h = compute_objective_matrix(k, &self.goal, &task, &jc, weight, damping);
        let c = compute_objective_vector(k, &self.goal, &task, &jc, s, weight);
        let bounds = build_step_inequalities(k, self.model, q.as_slice(), config);
        let start = repeat(Real::zero(), self.model.nv);
        let answer = k.solve_qp(&h, &c, &bounds, &start, config.qp_max_iters, config.qp_solver);
        let ghost told = answer;
        assert(goal::goal_rows(k, *self.model, s.data, self.goal, task));
        assert(jacobian::stacked_rows(
            k,
            *self.model,
            s.data,
            self.cm.constraints@,
            self.cm.constraints@.len() as int,
            jc,
        ));
        assert(objective_matrix(k, self.goal, task, jc, weight, damping, h));
        assert(call_ensures(
            K::solve_qp,
            (k, &h, &c, &bounds, &start, config.qp_max_iters, config.qp_solver),
            told,
        ));
        assert(qp_answer(*self, q@, *s, told));
        take_qp_step(k, self.model, q, config, answer)
    }
}

/// Looks for a configuration that meets constraints within bounds.
pub fn solve_constrained_ik_qp<'a, K: RobotMath + QpMath>(
    k: &'a K,
    model: &'a Model,
    q0: &[Real],
    cm: &'a ConstraintModel,
    config: &'a QpIkConfig,
) -> (r: ConstrainedIkResult)
    requires
        model.wf(),
        q0@.len() == model.nq,
        cm.fits(model.joints@.len() as int),
        config.joint_limits matches Some(lim) ==> lim.fits(*model),
    ensures
        r.q@.len() == model.nq,
        config.joint_limits matches Some(lim) ==> limits::within(*model, lim, r.q@),
        exists|start: Seq<Real>| #[trigger]
            kept(*model, config.joint_limits, q0@, start) && ik::tells(
                (QpDescent { k, model, cm, config, goal: Goal::Constraints }),
                start,
                config.max_iters,
                r,
            ),
{
    let d = QpDescent { k, model, cm, config, goal: Goal::Constraints };
    let start = keep(model, &config.joint_limits, copy_slice(q0));
    assert(kept(*model, config.joint_limits, q0@, start@));
    pursue(&d, start, config.max_iters)
}

/// Looks for a configuration that brings a joint to a point and meets constraints, within
/// bounds.
pub fn solve_task_with_constraints_qp<'a, K: RobotMath + QpMath>(
    k: &'a K,
    model: &'a Model,
    q0: &[Real],
    joint_idx: usize,
    target: Vector3,
    cm: &'a ConstraintModel,
    config: &'a QpIkConfig,
) -> (r: ConstrainedIkResult)
    requires
        model.wf(),
        q0@.len() == model.nq,
        joint_idx < model.joints@.len(),
        cm.fits(model.joints@.len() as int),
        config.joint_limits matches Some(lim) ==> lim.fits(*model),
    ensures
        r.q@.len() == model.nq,
        config.joint_limits matches Some(lim) ==> limits::within(*model, lim, r.q@),
        exists|start: Seq<Real>| #[trigger]
            kept(*model, config.joint_limits, q0@, start) && ik::tells(
                (QpDescent { k, model, cm, config, goal: Goal::Point { joint: joint_idx, target } }),
                start,
                config.max_iters,
                r,
            ),
{
    let d = QpDescent { k, model, cm, config, goal: Goal::Point { joint: joint_idx, target } };
    let start = keep(model, &config.joint_limits, copy_slice(q0));
    assert(kept(*model, config.joint_limits, q0@, start@));
    pursue(&d, start, config.max_iters)
}

/// Looks for a configuration that brings a frame to a pose and meets constraints, within
/// bounds.
pub fn solve_frame_task_with_constraints_qp<'a, K: RobotMath + QpMath>(
    k: &'a K,
    model: &'a Model,
    q0: &[Real],
    task_frame: &'a Frame,
    target_pose: Placement,
    cm: &'a ConstraintModel,
    config: &'a QpIkConfig,
) -> (r: ConstrainedIkResult)
    requires
        model.wf(),
        q0@.len() == model.nq,
        task_frame.parent_joint < model.joints@.len(),
        cm.fits(model.joints@.len() as int),
        config.joint_limits matches Some(lim) ==> lim.fits(*model),
    ensures
        r.q@.len() == model.nq,
        config.joint_limits matches Some(lim) ==> limits::within(*model, lim, r.q@),
        exists|start: Seq<Real>| #[trigger]
            kept(*model, config.joint_limits, q0@, start) && ik::tells(
                (QpDescent {
                    k,
                    model,
                    cm,
                    config,
                    goal: Goal::Pose { frame: task_frame, pose: target_pose },
                }),
                start,
                config.max_iters,
                r,
            ),
{
    let d = QpDescent {
        k,
        model,
        cm,
        config,
        goal: Goal::Pose { frame: task_frame, pose: target_pose },
    };
    let start = keep(model, &config.joint_limits, copy_slice(q0));
    assert(kept(*model, config.joint_limits, q0@, start@));
    pursue(&d, start, config.max_iters)
}

/// A search by quadratic programs says that it has converged exactly if the norms that it tells meet
/// the tolerances.
pub proof fn convergence_is_within_tolerance<'a, K: RobotMath + QpMath>(
    d: QpDescent<'a, K>,
    start: Seq<Real>,
    r: ConstrainedIkResult,
)
    requires
        ik::tells(d, start, d.config.max_iters, r),
    ensures
        r.converged <==> if d.goal is Constraints {
            r.constraint_error_norm.at_most(d.config.tol_constraint)
        } else {
            &&& r.task_error_norm.at_most(d.config.tol_task)
            &&& d.cm.constraints@.len() == 0 || r.constraint_error_norm.at_most(d.config.tol_constraint)
        },
{
    ik::norms_are_final(d, start, d.config.max_iters, r);
}

} // verus!
