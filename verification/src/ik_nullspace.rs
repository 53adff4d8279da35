//! Inverse kinematics with a second aim in what the first one leaves free.

use vstd::prelude::*;
use crate::collision;
use crate::constraint::error;
use crate::constraint::goal;
use crate::ik;
use crate::ik_solver;
use crate::least_squares;
use crate::manifold;
use crate::matrix;
use crate::collision::{collision_potential_gradient, AllowedCollisionMatrix, Proximity};
use crate::constraint::goal::take_rows;
use crate::data::repeat;
use crate::descent::{Descent, Outcome};
use crate::geometry::GeometryModel;
use crate::ik::{begin, list_three, measure_task, move_by, multiply_vector, search, shorten, IkConfig, IkResult, IkState, IkTask, GRADIENT_STEP, MARGIN};
use crate::ik_solver::{projector, solver_pseudoinverse, solver_step};
use crate::jacobian::compute_joint_jacobian_from_data;
use crate::least_squares::{plus, scale};
use crate::manifold::difference;
use crate::matrix::{apply, inner, length, multiply, Matrix};
use crate::model::Model;
use crate::number::{Real, Vector3};
use crate::pose::RobotMath;
use crate::spatial::{Motion, SpatialMath};

verus! {

/// Settings for staying away from collisions.
#[derive(Clone, Debug)]
pub struct CollisionConfig {
    /// Distance below which objects are pushed apart.
    pub safety_margin: Real,
    /// Weight of pushing apart.
    pub collision_weight: Real,
    /// Step of finite differences.
    pub fd_eps: Real,
    /// Pairs that may touch.
    pub acm: Option<AllowedCollisionMatrix>,
}

impl Default for CollisionConfig {
    fn default() -> (r: Self)
        ensures
            r.safety_margin == (Real { bits: MARGIN }),
            r.collision_weight == Real::one(),
            r.fd_eps == (Real { bits: GRADIENT_STEP }),
            r.acm is None,
    {
        CollisionConfig {
            safety_margin: Real { bits: MARGIN },
            collision_weight: Real::one(),
            fd_eps: Real { bits: GRADIENT_STEP },
            acm: None,
        }
    }
}

/// What is aimed at besides the first task.
pub enum Aim<'a> {
    /// A configuration.
    Posture { target: &'a [Real], gain: Real },
    /// A point for the origin of another joint.
    Point { joint: usize, point: Vector3, weight: Real },
    /// Distance between objects.
    Distance { gmodel: &'a GeometryModel, cc: &'a CollisionConfig },
}

impl<'a> Aim<'a> {
    /// Whether the aim fits the model.
    pub open spec fn fits(self, m: Model) -> bool {
        match self {
            Aim::Posture { target, gain } => target@.len() == m.nq,
            Aim::Point { joint, point, weight } => 0 < joint < m.joints@.len(),
            Aim::Distance { gmodel, cc } => true,
        }
    }
}

/// A task, a second aim, and the way towards them.
pub struct AimDescent<'a, K> {
    pub k: &'a K,
    pub model: &'a Model,
    pub config: &'a IkConfig,
    pub joint: usize,
    pub point: Vector3,
    pub aim: Aim<'a>,
}

impl<'a, K> AimDescent<'a, K> {
    /// The first task.
    pub open spec fn task(self) -> IkTask<'a> {
        IkTask::Position { joint: self.joint, point: self.point }
    }
}

/// Whether the second task is measured as told: its error and Jacobian times the weight, and the
/// size of both errors together.
pub open spec fn second_measured<K: RobotMath>(
    k: &K,
    m: Model,
    joint: int,
    point: Vector3,
    weight: Real,
    s: IkState,
    e: Seq<Real>,
    jac: Matrix,
) -> bool {
    &&& exists|off: Vector3, x: Vector3|
        {
            &&& #[trigger] call_ensures(K::offset, (k, point, s.data.oMi@[joint].translation), off)
            &&& #[trigger] ik::times(k, off, weight, x)
            &&& e == error::three(x)
        }
    &&& exists|columns: Seq<Motion>, rows: Matrix|
        {
            &&& #[trigger] ik::origin_jacobian(k, m, s.data, joint, columns)
            &&& #[trigger] goal::rows_from(columns, 3, rows)
            &&& scaled_matrix(k, rows, weight, jac)
        }
    &&& exists|a: Real, b: Real, sum: Real|
        {
            &&& #[trigger] call_ensures(K::product, (k, s.norm, s.norm), a)
            &&& #[trigger] matrix::inner_of(k, e, e, b)
            &&& #[trigger] call_ensures(K::sum, (k, a, b), sum)
            &&& call_ensures(K::root, (k, sum), s.error)
        }
}

/// Whether the entries of `r` are those of `a`, each times a number.
pub open spec fn scaled_matrix<K: SpatialMath>(k: &K, a: Matrix, s: Real, r: Matrix) -> bool {
    &&& r.sized(a.height(), a.cols as int)
    &&& forall|i: int, j: int|
        0 <= i < a.height() && 0 <= j < a.cols ==> call_ensures(
            K::product,
            (k, a.at(i, j), s),
            #[trigger] r.at(i, j),
        )
}

fn scale_matrix<K: SpatialMath>(k: &K, a: &Matrix, s: Real) -> (r: Matrix)
    requires
        a.wf(),
    ensures
        scaled_matrix(k, *a, s, r),
{
    let mut rows: Vec<Vec<Real>> = Vec::new();
    for i in 0..a.rows.len()
        invariant
            a.wf(),
            rows@.len() == i,
            forall|x: int| 0 <= x < i ==> #[trigger] least_squares::scaled(k, a.rows@[x]@, s, rows@[x]@),
    {
        let ghost before = rows@;
        rows.push(scale(k, &a.rows[i], s));
        assert forall|x: int| 0 <= x < i + 1 implies #[trigger] least_squares::scaled(
            k,
            a.rows@[x]@,
            s,
            rows@[x]@,
        ) by {
            if x < i {
                assert(least_squares::scaled(k, a.rows@[x]@, s, before[x]@));
            }
        }
    }
    let r = Matrix { rows, cols: a.cols };
    assert forall|i: int| 0 <= i < r.rows@.len() implies (#[trigger] r.rows@[i])@.len() == r.cols by {
        assert(least_squares::scaled(k, a.rows@[i]@, s, rows@[i]@));
        assert(a.rows@[i]@.len() == a.cols);
    }
    assert forall|i: int, j: int| 0 <= i < a.height() && 0 <= j < a.cols implies call_ensures(
        K::product,
        (k, a.at(i, j), s),
        #[trigger] r.at(i, j),
    ) by {
        assert(least_squares::scaled(k, a.rows@[i]@, s, rows@[i]@));
        assert(a.rows@[i]@.len() == a.cols);
        assert(call_ensures(K::product, (k, a.rows@[i]@[j], s), rows@[i]@[j]));
    }
    r
}

/// Measures the second task along with the first.
fn measure_second<K: RobotMath>(k: &K, model: &Model, joint: usize, point: Vector3, weight: Real, first: IkState) -> (s:
    IkState)
    requires
        model.wf(),
        first.data.fits(*model),
        joint < model.joints@.len(),
    ensures
        s.data == first.data,
        s.e == first.e,
        s.norm == first.norm,
        s.jac == first.jac,
        s.second matches Some(t) && t.1.wf() && t.1.cols == model.nv && t.0@.len() == 3 && t.1.height() == 3
            && second_measured(k, *model, joint as int, point, weight, s, t.0@, t.1),
{
    let off = k.offset(point, first.data.oMi[joint].translation);
    let x = multiply_vector(k, off, weight);
    let e = list_three(x);
    let columns = compute_joint_jacobian_from_data(k, model, &first.data, joint);
    let rows = take_rows(&columns, 3);
    let jac = scale_matrix(k, &rows, weight);
    let a = k.product(first.norm, first.norm);
    let b = inner(k, &e, &e);
    let sum = k.sum(a, b);
    let error = k.root(sum);
    let ghost (e2, j2) = (e@, jac);
    let s = IkState {
        data: first.data,
        e: first.e,
        norm: first.norm,
        jac: first.jac,
        second: Some((e, jac)),
        error,
    };
    assert(call_ensures(K::offset, (k, point, s.data.oMi@[joint as int].translation), off));
    assert(ik::times(k, off, weight, x));
    assert(ik::origin_jacobian(k, *model, s.data, joint as int, columns@));
    assert(goal::rows_from(columns@, 3, rows));
    assert(call_ensures(K::product, (k, s.norm, s.norm), a));
    assert(matrix::inner_of(k, e2, e2, b));
    assert(call_ensures(K::sum, (k, a, b), sum));
    assert(second_measured(k, *model, joint as int, point, weight, s, e2, j2));
    s
}

/// Whether `r` holds the differences of two lists of numbers.
pub open spec fn subtracted<K: SpatialMath>(k: &K, a: Seq<Real>, b: Seq<Real>, r: Seq<Real>) -> bool {
    &&& r.len() == a.len()
    &&& forall|i: int| 0 <= i < a.len() ==> call_ensures(K::difference, (k, a[i], b[i]), #[trigger] r[i])
}

fn minus<K: SpatialMath>(k: &K, a: &Vec<Real>, b: &Vec<Real>) -> (r: Vec<Real>)
    requires
        a@.len() == b@.len(),
    ensures
        subtracted(k, a@, b@, r@),
{
    let mut r: Vec<Real> = Vec::new();
    for i in 0..a.len()
        invariant
            a@.len() == b@.len(),
            r@.len() == i,
            forall|j: int| 0 <= j < i ==> call_ensures(K::difference, (k, a@[j], b@[j]), #[trigger] r@[j]),
    {
        r.push(k.difference(a[i], b[i]));
    }
    r
}

/// Whether `x` is the step of the second task in what the first one leaves free, after the step
/// `first` of the first; none if it cannot be computed.
pub open spec fn second_step<K: RobotMath>(
    k: &K,
    m: Model,
    config: IkConfig,
    n: Matrix,
    first: Seq<Real>,
    e: Seq<Real>,
    jac: Matrix,
    x: Seq<Real>,
) -> bool {
    exists|free: Matrix, done: Seq<Real>, rest: Seq<Real>, step: Option<Vec<Real>>|
        {
            &&& #[trigger] matrix::multiplied(k, jac, n, free)
            &&& #[trigger] matrix::applied(k, jac, first, done)
            &&& #[trigger] subtracted(k, e, done, rest)
            &&& #[trigger] ik_solver::is_step(
                k,
                free,
                rest,
                config.damping,
                config.solver_method,
                config.joint_weights,
                step,
            )
            &&& x == match step {
                Some(s) => s@,
                None => Seq::new(m.nv as nat, |i: int| Real::zero()),
            }
        }
}

fn compute_second_step<K: RobotMath>(
    k: &K,
    model: &Model,
    config: &IkConfig,
    n: &Matrix,
    first: &Vec<Real>,
    e: &Vec<Real>,
    jac: &Matrix,
) -> (x: Vec<Real>)
    requires
        n.sized(model.nv as int, model.nv as int),
        e@.len() == jac.height(),
    ensures
        x@.len() == model.nv,
        second_step(k, *model, *config, *n, first@, e@, *jac, x@),
{
    let free = multiply(k, jac, n);
    let done = apply(k, jac, first);
    let rest = minus(k, e, &done);
    let step = solver_step(
        k,
        &free,
        &rest,
        &config.damping,
        config.solver_method,
        &config.joint_weights,
    );
    assert(matrix::multiplied(k, *jac, *n, free));
    assert(matrix::applied(k, *jac, first@, done@));
    assert(subtracted(k, e@, done@, rest@));
    assert(ik_solver::is_step(
        k,
        free,
        rest@,
        config.damping,
        config.solver_method,
        config.joint_weights,
        step,
    ));
    match step {
        Some(s) => s,
        None => repeat(Real::zero(), model.nv),
    }
}

/// Whether `x` pushes objects apart.
pub open spec fn pushes<K: RobotMath + Proximity>(
    k: &K,
    m: Model,
    q: Seq<Real>,
    gmodel: GeometryModel,
    cc: CollisionConfig,
    x: Seq<Real>,
) -> bool {
    exists|grad: Seq<Real>|
        {
            &&& #[trigger] is_gradient(k, m, q, gmodel, cc, grad)
            &&& x.len() == grad.len()
            &&& forall|i: int|
                0 <= i < grad.len() ==> call_ensures(
                    K::product,
                    (k, cc.collision_weight.negated(), grad[i]),
                    #[trigger] x[i],
                )
        }
}

/// Whether `grad` is the gradient of the collision potential.
pub open spec fn is_gradient<K: RobotMath + Proximity>(
    k: &K,
    m: Model,
    q: Seq<Real>,
    gmodel: GeometryModel,
    cc: CollisionConfig,
    grad: Seq<Real>,
) -> bool {
    &&& grad.len() == m.nv
    &&& forall|i: int|
        0 <= i < m.nv ==> collision::slope(
            k,
            m,
            gmodel,
            q,
            collision::matrix_filter(match cc.acm {
                Some(acm) => Some(&acm),
                None => None,
            }),
            cc.safety_margin,
            cc.fd_eps,
            i,
            #[trigger] grad[i],
        )
}

fn push_apart<K: RobotMath + Proximity>(
    k: &K,
    model: &Model,
    q: &Vec<Real>,
    gmodel: &GeometryModel,
    cc: &CollisionConfig,
) -> (x: Vec<Real>)
    requires
        model.wf(),
        q@.len() == model.nq,
    ensures
        x@.len() == model.nv,
        pushes(k, *model, q@, *gmodel, *cc, x@),
{
    let acm = match &cc.acm {
        Some(acm) => Some(acm),
        None => None,
    };
    let grad = collision_potential_gradient(
        k,
        model,
        gmodel,
        q.as_slice(),
        acm,
        cc.safety_margin,
        cc.fd_eps,
    );
    assert(is_gradient(k, *model, q@, *gmodel, *cc, grad@));
    let weight = cc.collision_weight.neg();
    let mut x: Vec<Real> = Vec::new();
    for i in 0..grad.len()
        invariant
            weight == cc.collision_weight.negated(),
            x@.len() == i,
            forall|j: int| 0 <= j < i ==> call_ensures(K::product, (k, weight, grad@[j]), #[trigger] x@[j]),
    {
        x.push(k.product(weight, grad[i]));
    }
    x
}

/// Whether `x` is the step towards the second aim.
pub open spec fn aim_step<'a, K: RobotMath + Proximity>(
    d: AimDescent<'a, K>,
    q: Seq<Real>,
    s: IkState,
    n: Matrix,
    first: Seq<Real>,
    x: Seq<Real>,
) -> bool {
    match d.aim {
        Aim::Posture { target, gain } => exists|gap: Seq<Real>| #[trigger]
            manifold::leads(d.k, *d.model, q, target@, gap) && least_squares::scaled(d.k, gap, gain, x),
        Aim::Point { joint, point, weight } => s.second matches Some(t) && second_step(
            d.k,
            *d.model,
            *d.config,
            n,
            first,
            t.0@,
            t.1,
            x,
        ),
        Aim::Distance { gmodel, cc } => pushes(d.k, *d.model, q, *gmodel, *cc, x),
    }
}

/// Whether `dq` is the step of the first task, plus that towards the second aim as far as the
/// first leaves it free.
pub open spec fn joint_step<'a, K: RobotMath + Proximity>(
    d: AimDescent<'a, K>,
    q: Seq<Real>,
    s: IkState,
    first: Vec<Real>,
    inverse: Matrix,
    dq: Seq<Real>,
) -> bool {
    exists|n: Matrix, x: Seq<Real>, free: Seq<Real>|
        {
            &&& #[trigger] ik_solver::is_projector(d.k, inverse, s.jac, n)
            &&& #[trigger] aim_step(d, q, s, n, first@, x)
            &&& #[trigger] matrix::applied(d.k, n, x, free)
            &&& least_squares::added(d.k, first@, free, dq)
        }
}

/// Whether the step `dq` from `q` comes to `o`: too small a step is none, and others are shortened.
pub open spec fn long_step<K: RobotMath>(
    k: &K,
    m: Model,
    config: IkConfig,
    q: Seq<Real>,
    dq: Seq<Real>,
    o: Outcome,
) -> bool {
    exists|norm: Real|
        {
            &&& #[trigger] matrix::length_of(k, dq, norm)
            &&& if norm.at_most(config.tol_step) {
                o == Outcome::Rest
            } else {
                o matches Outcome::Move(r) && applied_step(k, m, config, q, dq, r@)
            }
        }
}

/// Whether `r` is the configuration `q` moved by as much of `dq` as is taken, within the limits.
pub open spec fn applied_step<K: RobotMath>(
    k: &K,
    m: Model,
    config: IkConfig,
    q: Seq<Real>,
    dq: Seq<Real>,
    r: Seq<Real>,
) -> bool {
    exists|short: Seq<Real>| #[trigger]
        ik::shortened(k, config, dq, short) && ik::moved(k, m, config, q, short, r)
}

fn apply_step_with_limits<K: RobotMath>(k: &K, model: &Model, config: &IkConfig, q: &Vec<Real>, dq: &Vec<Real>) -> (r:
    Vec<Real>)
    requires
        model.wf(),
        q@.len() == model.nq,
        dq@.len() == model.nv,
        ik::limits_fit(*model, config.joint_limits),
    ensures
        applied_step(k, *model, *config, q@, dq@, r@),
        ik::proper(*model, config.joint_limits, r@),
{
    let short = shorten(k, model, config, dq);
    assert(ik::shortened(k, *config, dq@, short@));
    move_by(k, model, config, q, &short)
}

fn take_long_step<K: RobotMath>(k: &K, model: &Model, config: &IkConfig, q: &Vec<Real>, dq: &Vec<Real>) -> (o: Outcome)
    requires
        model.wf(),
        q@.len() == model.nq,
        dq@.len() == model.nv,
        ik::limits_fit(*model, config.joint_limits),
    ensures
        long_step(k, *model, *config, q@, dq@, o),
        o matches Outcome::Move(r) ==> ik::proper(*model, config.joint_limits, r@),
{
    let norm = length(k, dq);
    assert(matrix::length_of(k, dq@, norm));
    if norm.le(config.tol_step) {
        Outcome::Rest
    } else {
        Outcome::Move(apply_step_with_limits(k, model, config, q, dq))
    }
}

fn compute_aim_step<'a, K: RobotMath + Proximity>(
    d: &AimDescent<'a, K>,
    q: &Vec<Real>,
    s: &IkState,
    n: &Matrix,
    first: &Vec<Real>,
) -> (x: Vec<Real>)
    requires
        d.valid(),
        d.fits(q@),
        d.measured(q@, *s),
        n.sized(d.model.nv as int, d.model.nv as int),
    ensures
        x@.len() == d.model.nv,
        aim_step(*d, q@, *s, *n, first@, x@),
{
    match d.aim {
        Aim::Posture { target, gain } => {
            let gap = difference(d.k, d.model, q.as_slice(), target);
            assert(manifold::leads(d.k, *d.model, q@, target@, gap@));
            scale(d.k, &gap, gain)
        },
        Aim::Point { joint, point, weight } => match &s.second {
            Some(t) => compute_second_step(d.k, d.model, d.config, n, first, &t.0, &t.1),
            None => {
                assert(false);
                repeat(Real::zero(), d.model.nv)
            },
        },
        Aim::Distance { gmodel, cc } => push_apart(d.k, d.model, q, gmodel, cc),
    }
}

impl<'a, K: RobotMath + Proximity> Descent for AimDescent<'a, K> {
    type State = IkState;

    open spec fn valid(&self) -> bool {
        &&& self.model.wf()
        &&& self.task().fits(self.model.joints@.len() as int)
        &&& self.aim.fits(*self.model)
        &&& ik::limits_fit(*self.model, self.config.joint_limits)
    }

    open spec fn fits(&self, q: Seq<Real>) -> bool {
        ik::proper(*self.model, self.config.joint_limits, q)
    }

    open spec fn measured(&self, q: Seq<Real>, s: IkState) -> bool {
        &&& ik::task_measured(self.k, *self.model, self.task(), q, s)
        &&& match self.aim {
            Aim::Point { joint, point, weight } => s.second matches Some(t) && t.1.wf() && t.1.cols
                == self.model.nv && t.0@.len() == 3 && t.1.height() == 3 && second_measured(
                self.k,
                *self.model,
                joint as int,
                point,
                weight,
                s,
                t.0@,
                t.1,
            ),
            _ => s.error == s.norm,
        }
    }

    open spec fn reached(&self, s: IkState) -> bool {
        s.norm.at_most(self.config.tol_error)
    }

    open spec fn stepped(&self, q: Seq<Real>, s: IkState, o: Outcome) -> bool {
        exists|first: Option<Vec<Real>>|
            {
                &&& #[trigger] ik_solver::is_step(
                    self.k,
                    s.jac,
                    s.e@,
                    self.config.damping,
                    self.config.solver_method,
                    self.config.joint_weights,
                    first,
                )
                &&& match first {
                    Some(first) => aims(*self, q, s, first, o),
                    None => o == Outcome::Fail,
                }
            }
    }

    fn measure(&self, q: &Vec<Real>) -> (s: IkState) {
        let task = IkTask::Position { joint: self.joint, point: self.point };
        let first = measure_task(self.k, self.model, &task, q);
        match self.aim {
            Aim::Point { joint, point, weight } => {
                let s = measure_second(self.k, self.model, joint, point, weight, first);
                assert(ik::task_measured(self.k, *self.model, self.task(), q@, s));
                s
            },
            _ => first,
        }
    }

    fn test(&self, s: &IkState) -> (r: bool) {
        s.norm.le(self.config.tol_error)
    }

    fn step(&self, q: &Vec<Real>, s: &IkState) -> (o: Outcome) {
        let first = solver_step(
            self.k,
            &s.jac,
            &s.e,
            &self.config.damping,
            self.config.solver_method,
            &self.config.joint_weights,
        );
        assert(ik_solver::is_step(
            self.k,
            s.jac,
            s.e@,
            self.config.damping,
            self.config.solver_method,
            self.config.joint_weights,
            first,
        ));
        match first {
            Some(first) => pursue_aim(self, q, s, first),
            None => Outcome::Fail,
        }
    }
}

/// Whether the step `first` of the first task and that towards the second aim come to `o`.
pub open spec fn aims<'a, K: RobotMath + Proximity>(
    d: AimDescent<'a, K>,
    q: Seq<Real>,
    s: IkState,
    first: Vec<Real>,
    o: Outcome,
) -> bool {
    exists|inverse: Option<Matrix>|
        {
            &&& #[trigger] ik_solver::is_pseudoinverse(
                d.k,
                s.jac,
                d.config.damping,
                d.config.joint_weights,
                inverse,
            )
            &&& match inverse {
                Some(inverse) => exists|dq: Seq<Real>| #[trigger]
                    joint_step(d, q, s, first, inverse, dq) && long_step(
                        d.k,
                        *d.model,
                        *d.config,
                        q,
                        dq,
                        o,
                    ),
                None => o == Outcome::Fail,
            }
        }
}

fn pursue_aim<'a, K: RobotMath + Proximity>(d: &AimDescent<'a, K>, q: &Vec<Real>, s: &IkState, first: Vec<Real>) -> (o:
    Outcome)
    requires
        d.valid(),
        d.fits(q@),
        d.measured(q@, *s),
        first@.len() == d.model.nv,
    ensures
        aims(*d, q@, *s, first, o),
        o matches Outcome::Move(r) ==> d.fits(r@),
{
    let inverse = solver_pseudoinverse(d.k, &s.jac, &d.config.damping, &d.config.joint_weights);
    assert(ik_solver::is_pseudoinverse(d.k, s.jac, d.config.damping, d.config.joint_weights, inverse));
    match inverse {
        Some(inverse) => {
            let n = projector(d.k, &inverse, &s.jac);
            let x = compute_aim_step(d, q, s, &n, &first);
            let free = apply(d.k, &n, &x);
            let dq = plus(d.k, &first, &free);
            assert(ik_solver::is_projector(d.k, inverse, s.jac, n));
            assert(aim_step(*d, q@, *s, n, first@, x@));
            assert(matrix::applied(d.k, n, x@, free@));
            assert(joint_step(*d, q@, *s, first, inverse, dq@));
            take_long_step(d.k, d.model, d.config, q, &dq)
        },
        None => Outcome::Fail,
    }
}

/// Whether `r` tells where a search with a second aim from `q0` comes to; `unmeasured` is the error
/// without any iteration.
pub open spec fn solves_with_aim<'a, K: RobotMath + Proximity>(
    d: AimDescent<'a, K>,
    q0: Seq<Real>,
    unmeasured: Real,
    r: IkResult,
) -> bool {
    exists|start: Seq<Real>| #[trigger]
        ik::begins(d.k, *d.model, *d.config, q0, start) && ik::ik_tells(
            d,
            start,
            d.config.max_iters,
            unmeasured,
            r,
        )
}

/// A search with a second aim that says it has converged met the first task within the tolerance.
pub proof fn convergence_is_within_tolerance<'a, K: RobotMath + Proximity>(
    d: AimDescent<'a, K>,
    q0: Seq<Real>,
    unmeasured: Real,
    r: IkResult,
)
    requires
        solves_with_aim(d, q0, unmeasured, r),
        r.status == ik::IkStatus::Converged,
    ensures
        r.iterations < d.config.max_iters,
        exists|s: IkState| #[trigger]
            ik::task_measured(d.k, *d.model, d.task(), r.q@, s) && s.norm.at_most(d.config.tol_error),
{
    let start = choose|start: Seq<Real>| #[trigger]
        ik::begins(d.k, *d.model, *d.config, q0, start) && ik::ik_tells(
            d,
            start,
            d.config.max_iters,
            unmeasured,
            r,
        );
    ik::converging_is_measured(d, start, d.config.max_iters, unmeasured, r);
    let s = choose|s: IkState| #[trigger] d.measured(r.q@, s) && d.reached(s) && r.final_error_norm == s.error;
    assert(ik::task_measured(d.k, *d.model, d.task(), r.q@, s));
}

/// With at least one iteration allowed, a search with a second aim that adds nothing to the error says
/// that it has converged exactly if the error that it tells is within the tolerance.
pub proof fn convergence_is_a_small_error<'a, K: RobotMath + Proximity>(
    d: AimDescent<'a, K>,
    q0: Seq<Real>,
    unmeasured: Real,
    r: IkResult,
)
    requires
        solves_with_aim(d, q0, unmeasured, r),
        d.config.max_iters > 0,
        !(d.aim is Point),
    ensures
        r.status == ik::IkStatus::Converged <==> r.final_error_norm.at_most(d.config.tol_error),
{
    let start = choose|start: Seq<Real>| #[trigger]
        ik::begins(d.k, *d.model, *d.config, q0, start) && ik::ik_tells(
            d,
            start,
            d.config.max_iters,
            unmeasured,
            r,
        );
    ik::status_follows_measurement(d, start, d.config.max_iters, unmeasured, r);
}

fn solve_with_aim<'a, K: RobotMath + Proximity>(d: &AimDescent<'a, K>, q0: &[Real], unmeasured: Real) -> (r: IkResult)
    requires
        d.valid(),
        q0@.len() == d.model.nq,
    ensures
        ik::proper(*d.model, d.config.joint_limits, r.q@),
        solves_with_aim(*d, q0@, unmeasured, r),
{
    let start = begin(d.k, d.model, d.config, q0);
    assert(ik::begins(d.k, *d.model, *d.config, q0@, start@));
    search(d, start, d.config.max_iters, unmeasured)
}

/// Looks for a configuration that brings the origin of a joint to a point, and as far as that leaves
/// it free is close to another.
pub fn solve_joint_position_ik_with_posture<'a, K: RobotMath + Proximity>(
    k: &'a K,
    model: &'a Model,
    q0: &[Real],
    joint_idx: usize,
    target_position_world: Vector3,
    q_posture_target: &'a [Real],
    posture_gain: Real,
    config: &'a IkConfig,
) -> (r: IkResult)
    requires
        model.wf(),
        q0@.len() == model.nq,
        q_posture_target@.len() == model.nq,
        0 < joint_idx < model.joints@.len(),
        ik::limits_fit(*model, config.joint_limits),
    ensures
        ik::proper(*model, config.joint_limits, r.q@),
        solves_with_aim(
            (AimDescent {
                k,
                model,
                config,
                joint: joint_idx,
                point: target_position_world,
                aim: Aim::Posture { target: q_posture_target, gain: posture_gain },
            }),
            q0@,
            Real::infinity(),
            r,
        ),
{
    let d = AimDescent {
        k,
        model,
        config,
        joint: joint_idx,
        point: target_position_world,
        aim: Aim::Posture { target: q_posture_target, gain: posture_gain },
    };
    solve_with_aim(&d, q0, Real::infinity())
}

/// Looks for a configuration that brings the origin of a joint to a point, and as far as that leaves
/// it free the origin of another to another.
pub fn solve_two_task_position_ik<'a, K: RobotMath + Proximity>(
    k: &'a K,
    model: &'a Model,
    q0: &[Real],
    primary_joint_idx: usize,
    primary_target_world: Vector3,
    secondary_joint_idx: usize,
    secondary_target_world: Vector3,
    secondary_weight: Real,
    config: &'a IkConfig,
) -> (r: IkResult)
    requires
        model.wf(),
        q0@.len() == model.nq,
        0 < primary_joint_idx < model.joints@.len(),
        0 < secondary_joint_idx < model.joints@.len(),
        ik::limits_fit(*model, config.joint_limits),
    ensures
        ik::proper(*model, config.joint_limits, r.q@),
        solves_with_aim(
            (AimDescent {
                k,
                model,
                config,
                joint: primary_joint_idx,
                point: primary_target_world,
                aim: Aim::Point {
                    joint: secondary_joint_idx,
                    point: secondary_target_world,
                    weight: secondary_weight,
                },
            }),
            q0@,
            Real::infinity(),
            r,
        ),
{
    let d = AimDescent {
        k,
        model,
        config,
        joint: primary_joint_idx,
        point: primary_target_world,
        aim: Aim::Point {
            joint: secondary_joint_idx,
            point: secondary_target_world,
            weight: secondary_weight,
        },
    };
    solve_with_aim(&d, q0, Real::infinity())
}

/// Looks for a configuration that brings the origin of a joint to a point, and as far as that leaves
/// it free keeps objects apart.
pub fn solve_joint_position_ik_with_collision_avoidance<'a, K: RobotMath + Proximity>(
    k: &'a K,
    model: &'a Model,
    gmodel: &'a GeometryModel,
    q0: &[Real],
    joint_idx: usize,
    target: Vector3,
    cc: &'a CollisionConfig,
    config: &'a IkConfig,
) -> (r: IkResult)
    requires
        model.wf(),
        q0@.len() == model.nq,
        0 < joint_idx < model.joints@.len(),
        ik::limits_fit(*model, config.joint_limits),
    ensures
        ik::proper(*model, config.joint_limits, r.q@),
        solves_with_aim(
            (AimDescent {
                k,
                model,
                config,
                joint: joint_idx,
                point: target,
                aim: Aim::Distance { gmodel, cc },
            }),
            q0@,
            Real::zero(),
            r,
        ),
{
    let d = AimDescent {
        k,
        model,
        config,
        joint: joint_idx,
        point: target,
        aim: Aim::Distance { gmodel, cc },
    };
    solve_with_aim(&d, q0, Real::zero())
}

} // verus!
