//! Steps of inverse kinematics.

use vstd::prelude::*;
use crate::aba;
use crate::least_squares;
use crate::matrix;
use crate::data::repeat;
use crate::least_squares::{damped_solve, compute_gram, scale};
use crate::matrix::{apply, inner, pull, LinearMath, Matrix};
use crate::number::{Real, ONE};
use crate::spatial::SpatialMath;

verus! {

/// 1e-12.
pub const SMALL: u64 = 0x3d719799812dea11;

/// 1e-30.
pub const TINY: u64 = 0x39b4484bfeebc2a0;

/// 1e-3.
pub const SMALL_GAIN: u64 = 0x3f50624dd2f1a9fc;

/// Floating-point powers.
///
/// Nothing is assumed of the results.
pub trait PowerMath {
    /// The number `x` multiplied `n` times with itself.
    fn power(&self, x: Real, n: usize) -> Real;
}

/// Damping of steps.
#[derive(Clone, Copy, Debug)]
pub enum Damping {
    /// Always the same.
    Fixed(Real),
    /// Stronger where the mechanism is less manipulable.
    AdaptiveManipulability { lambda_min: Real, lambda_max: Real, manipulability_threshold: Real },
}

/// How a step is computed.
#[derive(Clone, Copy, PartialEq, Eq, Structural, Debug)]
pub enum SolverMethod {
    /// Damped least squares.
    DampedLeastSquares,
    /// The transpose of the Jacobian.
    JacobianTranspose,
}

impl Default for SolverMethod {
    fn default() -> (r: Self)
        ensures
            r == SolverMethod::DampedLeastSquares,
    {
        SolverMethod::DampedLeastSquares
    }
}

/// Cost of moving each number of the velocity.
#[derive(Clone, Debug)]
pub struct JointWeights {
    pub weights: Vec<Real>,
}

/// Whether `w` is the weight of the number `v` when the first `n` places of the chain have
/// been gone through: that of its last place, or that of the chain's length.
pub open spec fn chain_weight<K: PowerMath>(k: &K, chain: Seq<usize>, alpha: Real, n: int, v: int, w: Real) -> bool
    decreases n,
{
    if n <= 0 {
        call_ensures(
            K::power,
            (
                k,
                alpha,
                (if chain.len() == 0 {
                    0
                } else {
                    chain.len() - 1
                }) as usize,
            ),
            w,
        )
    } else if chain[n - 1] == v {
        call_ensures(K::power, (k, alpha, (chain.len() - n) as usize), w)
    } else {
        chain_weight(k, chain, alpha, n - 1, v, w)
    }
}

impl JointWeights {
    /// The same weight for all.
    pub fn uniform(nv: usize) -> (r: Self)
        ensures
            r.weights@ == Seq::new(nv as nat, |i: int| Real::one()),
    {
        JointWeights { weights: repeat(Real::one(), nv) }
    }

    /// Weights that prefer the end of a chain: the last place gets one, each before it
    /// `alpha` times as much, all others as much as the first.
    pub fn ee_proximal<K: PowerMath>(k: &K, nv: usize, chain: &[usize], alpha: Real) -> (r: Self)
        ensures
            r.weights@.len() == nv,
            forall|v: int|
                0 <= v < nv ==> chain_weight(
                    k,
                    chain@,
                    alpha,
                    chain@.len() as int,
                    v,
                    #[trigger] r.weights@[v],
                ),
    {
        let n: usize = chain.len();
        let first: usize = if n == 0 {
            0
        } else {
            n - 1
        };
        let base = k.power(alpha, first);
        let mut w: Vec<Real> = repeat(base, nv);
        for i in 0..n
            invariant
                n == chain@.len(),
                w@.len() == nv,
                forall|v: int|
                    0 <= v < nv ==> chain_weight(k, chain@, alpha, i as int, v, #[trigger] w@[v]),
        {
            let ghost before = w@;
            let v: usize = chain[i];
            if v < nv {
                let x = k.power(alpha, n - 1 - i);
                w.set(v, x);
            }
            assert forall|y: int| 0 <= y < nv implies chain_weight(
                k,
                chain@,
                alpha,
                i + 1,
                y,
                #[trigger] w@[y],
            ) by {
                if y != v {
                    assert(w@[y] == before[y]);
                }
            }
        }
        JointWeights { weights: w }
    }
}

/// Whether `r` is `J Jᵀ`.
pub open spec fn squared<K: LinearMath>(k: &K, j: Matrix, r: Matrix) -> bool {
    &&& r.sized(j.height(), j.height())
    &&& forall|a: int, b: int|
        0 <= a < j.height() && 0 <= b < j.height() ==> matrix::inner_of(
            k,
            j.rows@[a]@,
            j.rows@[b]@,
            #[trigger] r.at(a, b),
        )
}

fn square<K: LinearMath>(k: &K, j: &Matrix) -> (r: Matrix)
    ensures
        squared(k, *j, r),
{
    let n: usize = j.rows.len();
    let mut rows: Vec<Vec<Real>> = Vec::new();
    for a in 0..n
        invariant
            n == j.rows@.len(),
            rows@.len() == a,
            forall|x: int| 0 <= x < a ==> (#[trigger] rows@[x])@.len() == n,
            forall|x: int, y: int|
                0 <= x < a && 0 <= y < n ==> matrix::inner_of(
                    k,
                    j.rows@[x]@,
                    j.rows@[y]@,
                    #[trigger] rows@[x]@[y],
                ),
    {
        let mut row: Vec<Real> = Vec::new();
        for b in 0..n
            invariant
                n == j.rows@.len(),
                a < n,
                row@.len() == b,
                forall|y: int|
                    0 <= y < b ==> matrix::inner_of(k, j.rows@[a as int]@, j.rows@[y]@, #[trigger] row@[y]),
        {
            row.push(inner(k, &j.rows[a], &j.rows[b]));
        }
        rows.push(row);
    }
    Matrix { rows, cols: n }
}

/// Whether `w` is the manipulability `sqrt(max(det(J Jᵀ), 0))`.
pub open spec fn manipulability<K: LinearMath>(k: &K, j: Matrix, w: Real) -> bool {
    exists|s: Matrix, det: Real|
        {
            &&& squared(k, j, s)
            &&& #[trigger] call_ensures(K::determinant, (k, &s), det)
            &&& call_ensures(K::root, (k, det.larger(Real::zero())), w)
        }
}

/// Whether `r` is the share of the threshold that the manipulability `w` reaches.
pub open spec fn manipulability_ratio<K: SpatialMath>(k: &K, w: Real, threshold: Real, r: Real) -> bool {
    if threshold.at_most(Real { bits: SMALL }) {
        r == Real::zero()
    } else {
        exists|x: Real| #[trigger]
            call_ensures(K::quotient, (k, w, threshold), x) && r == x.clamped(Real::zero(), Real::one())
    }
}

/// Whether `l` is the damping for a Jacobian.
pub open spec fn damping_for<K: SpatialMath + LinearMath>(k: &K, j: Matrix, damping: Damping, l: Real) -> bool {
    match damping {
        Damping::Fixed(x) => l == x,
        Damping::AdaptiveManipulability { lambda_min, lambda_max, manipulability_threshold } =>
        exists|w: Real| #[trigger]
            manipulability(k, j, w) && if manipulability_threshold.at_most(w) {
                l == lambda_min
            } else {
                raised_damping(k, w, lambda_min, lambda_max, manipulability_threshold, l)
            },
    }
}

/// Whether `l` is the damping for a manipulability below the threshold.
pub open spec fn raised_damping<K: SpatialMath>(
    k: &K,
    w: Real,
    lambda_min: Real,
    lambda_max: Real,
    threshold: Real,
    l: Real,
) -> bool {
    exists|ratio: Real, range: Real, rest: Real, more: Real|
        {
            &&& #[trigger] manipulability_ratio(k, w, threshold, ratio)
            &&& #[trigger] call_ensures(K::difference, (k, lambda_max, lambda_min), range)
            &&& #[trigger] call_ensures(K::difference, (k, Real::one(), ratio), rest)
            &&& #[trigger] call_ensures(K::product, (k, range, rest), more)
            &&& call_ensures(K::sum, (k, lambda_min, more), l)
        }
}

fn lambda_from_jacobian<K: SpatialMath + LinearMath>(k: &K, j: &Matrix, damping: &Damping) -> (l: Real)
    ensures
        damping_for(k, *j, *damping, l),
{
    match *damping {
        Damping::Fixed(x) => x,
        Damping::AdaptiveManipulability { lambda_min, lambda_max, manipulability_threshold } => {
            let s = square(k, j);
            let det = k.determinant(&s);
            let w = k.root(det.max(Real::zero()));
            assert(call_ensures(K::determinant, (k, &s), det));
            assert(manipulability(k, *j, w));
            if manipulability_threshold.le(w) {
                lambda_min
            } else {
                let ratio = if manipulability_threshold.le(Real { bits: SMALL }) {
                    Real::zero()
                } else {
                    let x = k.quotient(w, manipulability_threshold);
                    assert(call_ensures(K::quotient, (k, w, manipulability_threshold), x));
                    x.restrict(Real::zero(), Real::one())
                };
                assert(manipulability_ratio(k, w, manipulability_threshold, ratio));
                let range = k.difference(lambda_max, lambda_min);
                let rest = k.difference(Real::one(), ratio);
                let more = k.product(range, rest);
                assert(call_ensures(K::difference, (k, lambda_max, lambda_min), range));
                assert(call_ensures(K::difference, (k, Real::one(), ratio), rest));
                assert(call_ensures(K::product, (k, range, rest), more));
                let l = k.sum(lambda_min, more);
                assert(raised_damping(k, w, lambda_min, lambda_max, manipulability_threshold, l));
                l
            }
        },
    }
}

/// The weight of a number of the velocity; one if there is none, and never below a small number.
pub open spec fn weight_of(w: JointWeights, c: int) -> Real {
    (if c < w.weights@.len() {
        w.weights@[c]
    } else {
        Real { bits: ONE }
    }).larger(Real { bits: SMALL })
}

/// Whether `x` is one over the weight of a number.
pub open spec fn ease<K: SpatialMath>(k: &K, w: JointWeights, c: int, x: Real) -> bool {
    call_ensures(K::quotient, (k, Real::one(), weight_of(w, c)), x)
}

fn compute_ease<K: SpatialMath>(k: &K, w: &JointWeights, c: usize) -> (x: Real)
    ensures
        ease(k, *w, c as int, x),
{
    let weight = if c < w.weights.len() {
        w.weights[c]
    } else {
        Real { bits: ONE }
    };
    k.quotient(Real::one(), weight.max(Real { bits: SMALL }))
}

/// Whether `x` is the number `a` over the weight of a number, if there are weights.
pub open spec fn eased_by<K: SpatialMath>(k: &K, w: Option<JointWeights>, c: int, a: Real, x: Real) -> bool {
    match w {
        Some(w) => exists|i: Real| #[trigger] ease(k, w, c, i) && call_ensures(K::product, (k, a, i), x),
        None => x == a,
    }
}

fn apply_ease<K: SpatialMath>(k: &K, w: &Option<JointWeights>, c: usize, a: Real) -> (x: Real)
    ensures
        eased_by(k, *w, c as int, a, x),
{
    match w {
        Some(w) => {
            let i = compute_ease(k, w, c);
            assert(ease(k, *w, c as int, i));
            k.product(a, i)
        },
        None => a,
    }
}

/// Whether the columns of `r` are those of `j`, each over its weight.
pub open spec fn eased_columns<K: SpatialMath>(k: &K, j: Matrix, w: Option<JointWeights>, r: Matrix) -> bool {
    &&& r.sized(j.height(), j.cols as int)
    &&& forall|a: int, c: int|
        0 <= a < j.height() && 0 <= c < j.cols ==> eased_by(k, w, c, j.at(a, c), #[trigger] r.at(a, c))
}

fn ease_columns<K: SpatialMath>(k: &K, j: &Matrix, w: &Option<JointWeights>) -> (r: Matrix)
    requires
        j.wf(),
    ensures
        eased_columns(k, *j, *w, r),
{
    let n: usize = j.cols;
    let mut rows: Vec<Vec<Real>> = Vec::new();
    for a in 0..j.rows.len()
        invariant
            j.wf(),
            n == j.cols,
            rows@.len() == a,
            forall|x: int| 0 <= x < a ==> (#[trigger] rows@[x])@.len() == n,
            forall|x: int, c: int|
                0 <= x < a && 0 <= c < n ==> eased_by(k, *w, c, j.at(x, c), #[trigger] rows@[x]@[c]),
    {
        let mut row: Vec<Real> = Vec::new();
        for c in 0..n
            invariant
                j.wf(),
                n == j.cols,
                a < j.rows@.len(),
                row@.len() == c,
                forall|y: int|
                    0 <= y < c ==> eased_by(k, *w, y, j.at(a as int, y), #[trigger] row@[y]),
        {
            row.push(apply_ease(k, w, c, j.get(a, c)));
        }
        rows.push(row);
    }
    Matrix { rows, cols: n }
}

/// Whether the numbers of `r` are those of `v`, each over its weight.
pub open spec fn eased_numbers<K: SpatialMath>(k: &K, v: Seq<Real>, w: Option<JointWeights>, r: Seq<Real>) -> bool {
    &&& r.len() == v.len()
    &&& forall|c: int| 0 <= c < v.len() ==> eased_by(k, w, c, v[c], #[trigger] r[c])
}

fn ease_numbers<K: SpatialMath>(k: &K, v: &Vec<Real>, w: &Option<JointWeights>) -> (r: Vec<Real>)
    ensures
        eased_numbers(k, v@, *w, r@),
{
    let mut r: Vec<Real> = Vec::new();
    for c in 0..v.len()
        invariant
            r@.len() == c,
            forall|y: int| 0 <= y < c ==> eased_by(k, *w, y, v@[y], #[trigger] r@[y]),
    {
        r.push(apply_ease(k, w, c, v[c]));
    }
    r
}

/// Whether `l` is the square of the damping for a Jacobian.
pub open spec fn squared_damping<K: SpatialMath + LinearMath>(k: &K, j: Matrix, damping: Damping, l: Real) -> bool {
    exists|x: Real| #[trigger] damping_for(k, j, damping, x) && call_ensures(K::product, (k, x, x), l)
}

fn compute_squared_damping<K: SpatialMath + LinearMath>(k: &K, j: &Matrix, damping: &Damping) -> (l: Real)
    ensures
        squared_damping(k, *j, *damping, l),
{
    let x = lambda_from_jacobian(k, j, damping);
    assert(damping_for(k, *j, *damping, x));
    k.product(x, x)
}

/// Whether `dq` is the damped step `W⁻¹ Jᵀ (J W⁻¹ Jᵀ + λ² I)⁻¹ e`, if the system has a solution.
pub open spec fn is_dls_step<K: SpatialMath + LinearMath>(
    k: &K,
    j: Matrix,
    e: Seq<Real>,
    damping: Damping,
    w: Option<JointWeights>,
    dq: Option<Vec<Real>>,
) -> bool {
    exists|l: Real, jw: Matrix, y: Option<Vec<Real>>|
        {
            &&& #[trigger] squared_damping(k, j, damping, l)
            &&& eased_columns(k, j, w, jw)
            &&& #[trigger] least_squares::damped_answer(k, jw, j, l, e, y)
            &&& match y {
                Some(y) => dq matches Some(dq) && eased_pull(k, j, y@, w, dq@),
                None => dq is None,
            }
        }
}

/// Whether `r` is `W⁻¹ Jᵀ y`.
pub open spec fn eased_pull<K: SpatialMath + LinearMath>(
    k: &K,
    j: Matrix,
    y: Seq<Real>,
    w: Option<JointWeights>,
    r: Seq<Real>,
) -> bool {
    exists|p: Seq<Real>| #[trigger] matrix::pulled(k, j, y, p) && eased_numbers(k, p, w, r)
}

fn pull_and_ease<K: SpatialMath + LinearMath>(k: &K, j: &Matrix, y: &Vec<Real>, w: &Option<JointWeights>) -> (r: Vec<
    Real,
>)
    requires
        j.wf(),
    ensures
        r@.len() == j.cols,
        eased_pull(k, *j, y@, *w, r@),
{
    let p = pull(k, j, y);
    assert(matrix::pulled(k, *j, y@, p@));
    ease_numbers(k, &p, w)
}

fn dls_step<K: SpatialMath + LinearMath>(
    k: &K,
    j: &Matrix,
    e: &Vec<Real>,
    damping: &Damping,
    w: &Option<JointWeights>,
) -> (dq: Option<Vec<Real>>)
    requires
        j.wf(),
    ensures
        dq matches Some(dq) ==> dq@.len() == j.cols,
        is_dls_step(k, *j, e@, *damping, *w, dq),
{
    let l = compute_squared_damping(k, j, damping);
    let jw = ease_columns(k, j, w);
    let y = damped_solve(k, &jw, j, l, e);
    assert(squared_damping(k, *j, *damping, l));
    assert(least_squares::damped_answer(k, jw, *j, l, e@, y));
    match y {
        Some(y) => Some(pull_and_ease(k, j, &y, w)),
        None => None,
    }
}

/// Whether `a` is the gain `e·J Jᵀ e / |J Jᵀ e|²`, or a small one where that is undefined.
pub open spec fn transpose_gain<K: SpatialMath + LinearMath>(k: &K, j: Matrix, e: Seq<Real>, a: Real) -> bool {
    exists|s: Matrix, se: Seq<Real>, num: Real, den: Real|
        {
            &&& #[trigger] squared(k, j, s)
            &&& #[trigger] matrix::applied(k, s, e, se)
            &&& #[trigger] matrix::inner_of(k, e, se, num)
            &&& #[trigger] matrix::inner_of(k, se, se, den)
            &&& if (Real { bits: TINY }).below(den) {
                call_ensures(K::quotient, (k, num, den), a)
            } else {
                a == Real { bits: SMALL_GAIN }
            }
        }
}

/// Whether `dq` is the step `α W⁻¹ Jᵀ e`.
pub open spec fn is_jt_step<K: SpatialMath + LinearMath>(
    k: &K,
    j: Matrix,
    e: Seq<Real>,
    w: Option<JointWeights>,
    dq: Seq<Real>,
) -> bool {
    exists|a: Real, p: Seq<Real>, s: Seq<Real>|
        {
            &&& #[trigger] transpose_gain(k, j, e, a)
            &&& #[trigger] matrix::pulled(k, j, e, p)
            &&& #[trigger] least_squares::scaled(k, p, a, s)
            &&& eased_numbers(k, s, w, dq)
        }
}

fn jt_step<K: SpatialMath + LinearMath>(k: &K, j: &Matrix, e: &Vec<Real>, w: &Option<JointWeights>) -> (dq: Vec<Real>)
    requires
        j.wf(),
    ensures
        dq@.len() == j.cols,
        is_jt_step(k, *j, e@, *w, dq@),
{
    let s = square(k, j);
    let se = apply(k, &s, e);
    let num = inner(k, e, &se);
    let den = inner(k, &se, &se);
    let a = if (Real { bits: TINY }).lt(den) {
        k.quotient(num, den)
    } else {
        Real { bits: SMALL_GAIN }
    };
    assert(squared(k, *j, s));
    assert(matrix::applied(k, s, e@, se@));
    assert(matrix::inner_of(k, e@, se@, num));
    assert(matrix::inner_of(k, se@, se@, den));
    assert(transpose_gain(k, *j, e@, a));
    let p = pull(k, j, e);
    let dq = scale(k, &p, a);
    assert(matrix::pulled(k, *j, e@, p@));
    assert(least_squares::scaled(k, p@, a, dq@));
    ease_numbers(k, &dq, w)
}

/// Whether `dq` is the step of a method, if it can be computed.
pub open spec fn is_step<K: SpatialMath + LinearMath>(
    k: &K,
    j: Matrix,
    e: Seq<Real>,
    damping: Damping,
    method: SolverMethod,
    w: Option<JointWeights>,
    dq: Option<Vec<Real>>,
) -> bool {
    match method {
        SolverMethod::DampedLeastSquares => is_dls_step(k, j, e, damping, w, dq),
        SolverMethod::JacobianTranspose => dq matches Some(dq) && is_jt_step(k, j, e, w, dq@),
    }
}

/// Computes the step of a method.
pub fn solver_step<K: SpatialMath + LinearMath>(
    k: &K,
    j: &Matrix,
    e: &Vec<Real>,
    damping: &Damping,
    method: SolverMethod,
    w: &Option<JointWeights>,
) -> (dq: Option<Vec<Real>>)
    requires
        j.wf(),
    ensures
        dq matches Some(dq) ==> dq@.len() == j.cols,
        is_step(k, *j, e@, *damping, method, *w, dq),
{
    match method {
        SolverMethod::DampedLeastSquares => dls_step(k, j, e, damping, w),
        SolverMethod::JacobianTranspose => Some(jt_step(k, j, e, w)),
    }
}

/// Whether `y` is the answer to `a y = e` for the `c`-th unit vector `e`.
pub open spec fn unit_answer<K: LinearMath>(k: &K, a: Matrix, c: int, y: Option<Vec<Real>>) -> bool {
    exists|e: Vec<Real>|
        e@ == aba::unit(a.height(), c) && #[trigger] call_ensures(K::solve_system, (k, &a, &e), y)
}

/// Whether `columns` are the columns `W⁻¹ Jᵀ y` for the answers `y` to all unit vectors, if there
/// are all.
pub open spec fn pulled_answers<K: SpatialMath + LinearMath>(
    k: &K,
    j: Matrix,
    a: Matrix,
    w: Option<JointWeights>,
    answers: Seq<Option<Vec<Real>>>,
    r: Option<Matrix>,
) -> bool {
    &&& answers.len() == a.height()
    &&& forall|c: int| 0 <= c < answers.len() ==> #[trigger] unit_answer(k, a, c, answers[c])
    &&& match r {
        Some(r) => {
            &&& r.sized(j.cols as int, a.height())
            &&& forall|c: int|
                0 <= c < answers.len() ==> (#[trigger] answers[c]) is Some && eased_pull(
                    k,
                    j,
                    answers[c]->0@,
                    w,
                    r.column(c),
                )
        },
        None => exists|c: int| 0 <= c < answers.len() && (#[trigger] answers[c]) is None,
    }
}

/// Whether `r` is the damped inverse `W⁻¹ Jᵀ (J W⁻¹ Jᵀ + λ² I)⁻¹`, if it can be computed.
pub open spec fn is_pseudoinverse<K: SpatialMath + LinearMath>(
    k: &K,
    j: Matrix,
    damping: Damping,
    w: Option<JointWeights>,
    r: Option<Matrix>,
) -> bool {
    exists|l: Real, jw: Matrix, a: Matrix, answers: Seq<Option<Vec<Real>>>|
        {
            &&& #[trigger] squared_damping(k, j, damping, l)
            &&& eased_columns(k, j, w, jw)
            &&& #[trigger] least_squares::gram(k, jw, j, l, a)
            &&& #[trigger] pulled_answers(k, j, a, w, answers, r)
        }
}

/// Computes the damped inverse of a Jacobian.
pub fn solver_pseudoinverse<K: SpatialMath + LinearMath>(
    k: &K,
    j: &Matrix,
    damping: &Damping,
    w: &Option<JointWeights>,
) -> (r: Option<Matrix>)
    requires
        j.wf(),
    ensures
        r matches Some(r) ==> r.sized(j.cols as int, j.height()),
        is_pseudoinverse(k, *j, *damping, *w, r),
{
    let l = compute_squared_damping(k, j, damping);
    let jw = ease_columns(k, j, w);
    let a = compute_gram(k, &jw, j, l);
    assert(squared_damping(k, *j, *damping, l));
    assert(least_squares::gram(k, jw, *j, l, a));
    let m: usize = j.rows.len();
    let mut columns: Vec<Vec<Real>> = Vec::new();
    let mut complete = true;
    let ghost mut answers: Seq<Option<Vec<Real>>> = Seq::empty();
    for c in 0..m
        invariant
            j.wf(),
            m == j.height(),
            m == a.height(),
            answers.len() == c,
            forall|x: int| 0 <= x < c ==> #[trigger] unit_answer(k, a, x, answers[x]),
            complete ==> columns@.len() == c,
            complete ==> forall|x: int|
                0 <= x < c ==> (#[trigger] answers[x]) is Some && columns@[x]@.len() == j.cols
                    && eased_pull(k, *j, answers[x]->0@, *w, columns@[x]@),
            !complete ==> exists|x: int| 0 <= x < c && (#[trigger] answers[x]) is None,
    {
        let ghost before = answers;
        let mut e = repeat(Real::zero(), m);
        e.set(c, Real::one());
        assert(e@ =~= aba::unit(m as int, c as int));
        let y = k.solve_system(&a, &e);
        assert(call_ensures(K::solve_system, (k, &a, &e), y));
        assert(unit_answer(k, a, c as int, y));
        proof {
            answers = answers.push(y);
            assert forall|x: int| 0 <= x < c + 1 implies #[trigger] unit_answer(k, a, x, answers[x]) by {
                if x < c {
                    assert(unit_answer(k, a, x, before[x]));
                }
            }
            if !complete {
                let x = choose|x: int| 0 <= x < c && (#[trigger] before[x]) is None;
                assert(answers[x] is None);
            }
            assert(answers[c as int] == y);
            assert(forall|x: int| 0 <= x < c ==> answers[x] == before[x]);
        }
        match y {
            Some(y) => {
                if complete {
                    columns.push(pull_and_ease(k, j, &y, w));
                }
            },
            None => {
                complete = false;
            },
        }
    }
    if !complete {
        assert(pulled_answers(k, *j, a, *w, answers, None));
        return None;
    }
    assert forall|c: int| 0 <= c < columns@.len() implies (#[trigger] columns@[c])@.len() == j.cols by {
        assert(answers[c] is Some);
    }
    let r = crate::matrix::from_columns(&columns, j.cols);
    assert forall|c: int| 0 <= c < answers.len() implies (#[trigger] answers[c]) is Some && eased_pull(
        k,
        *j,
        answers[c]->0@,
        *w,
        r.column(c),
    ) by {
        assert(columns@[c]@ =~= r.column(c));
    }
    assert(pulled_answers(k, *j, a, *w, answers, Some(r)));
    Some(r)
}

/// Whether `x` is the entry of the identity at `(i, j)` without the scalar product.
pub open spec fn without<K: SpatialMath + LinearMath>(
    k: &K,
    a: Seq<Real>,
    b: Seq<Real>,
    i: int,
    j: int,
    x: Real,
) -> bool {
    exists|p: Real| #[trigger]
        matrix::inner_of(k, a, b, p) && call_ensures(
            K::difference,
            (k, identity_entry(i, j), p),
            x,
        )
}

/// The entry of the identity at `(i, j)`.
pub open spec fn identity_entry(i: int, j: int) -> Real {
    if i == j {
        Real { bits: ONE }
    } else {
        Real { bits: 0 }
    }
}

/// Whether `r` is `I - P J`.
pub open spec fn is_projector<K: SpatialMath + LinearMath>(k: &K, p: Matrix, j: Matrix, r: Matrix) -> bool {
    &&& r.sized(p.height(), j.cols as int)
    &&& forall|a: int, b: int|
        0 <= a < p.height() && 0 <= b < j.cols ==> without(
            k,
            p.rows@[a]@,
            j.column(b),
            a,
            b,
            #[trigger] r.at(a, b),
        )
}

/// Computes `I - P J`: what a task leaves free.
pub fn projector<K: SpatialMath + LinearMath>(k: &K, p: &Matrix, j: &Matrix) -> (r: Matrix)
    requires
        j.wf(),
    ensures
        is_projector(k, *p, *j, r),
{
    let n: usize = p.rows.len();
    let mut columns: Vec<Vec<Real>> = Vec::new();
    for b in 0..j.cols
        invariant
            n == p.rows@.len(),
            j.wf(),
            columns@.len() == b,
            forall|y: int| 0 <= y < b ==> (#[trigger] columns@[y])@.len() == n,
            forall|y: int, a: int|
                0 <= y < b && 0 <= a < n ==> without(
                    k,
                    p.rows@[a]@,
                    j.column(y),
                    a,
                    y,
                    #[trigger] columns@[y]@[a],
                ),
    {
        let jb = j.copy_column(b);
        let mut column: Vec<Real> = Vec::new();
        for a in 0..n
            invariant
                n == p.rows@.len(),
                jb@ == j.column(b as int),
                column@.len() == a,
                forall|x: int|
                    0 <= x < a ==> without(
                        k,
                        p.rows@[x]@,
                        j.column(b as int),
                        x,
                        b as int,
                        #[trigger] column@[x],
                    ),
        {
            let s = inner(k, &p.rows[a], &jb);
            assert(matrix::inner_of(k, p.rows@[a as int]@, j.column(b as int), s));
            let one = if a == b {
                Real { bits: ONE }
            } else {
                Real { bits: 0 }
            };
            let x = k.difference(one, s);
            assert(without(k, p.rows@[a as int]@, j.column(b as int), a as int, b as int, x));
            column.push(x);
        }
        columns.push(column);
    }
    crate::matrix::from_columns(&columns, n)
}

} // verus!
