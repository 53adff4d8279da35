//! Damped least squares.

use vstd::prelude::*;
use crate::algebra;
use crate::constrained;
use crate::exact;
use crate::matrix;
use crate::matrix::{inner, LinearMath, Matrix};
use crate::number::Real;
use crate::spatial::SpatialMath;

verus! {

/// Whether `x` is the scalar product of two rows, plus the damping on the diagonal.
pub open spec fn gram_entry<K: SpatialMath + LinearMath>(
    k: &K,
    a: Seq<Real>,
    b: Seq<Real>,
    damping: Real,
    diagonal: bool,
    x: Real,
) -> bool {
    exists|p: Real|
        {
            &&& #[trigger] matrix::inner_of(k, a, b, p)
            &&& if diagonal {
                call_ensures(K::sum, (k, p, damping), x)
            } else {
                x == p
            }
        }
}

/// Whether `r` is `A Bᵀ + damping I`.
pub open spec fn gram<K: SpatialMath + LinearMath>(k: &K, a: Matrix, b: Matrix, damping: Real, r: Matrix) -> bool {
    &&& r.sized(a.height(), b.height())
    &&& forall|i: int, j: int|
        0 <= i < a.height() && 0 <= j < b.height() ==> gram_entry(
            k,
            a.rows@[i]@,
            b.rows@[j]@,
            damping,
            i == j,
            #[trigger] r.at(i, j),
        )
}

/// Computes `A Bᵀ + damping I`.
pub fn compute_gram<K: SpatialMath + LinearMath>(k: &K, a: &Matrix, b: &Matrix, damping: Real) -> (r: Matrix)
    ensures
        gram(k, *a, *b, damping, r),
{
    let width: usize = b.rows.len();
    let mut rows: Vec<Vec<Real>> = Vec::new();
    for i in 0..a.rows.len()
        invariant
            width == b.rows@.len(),
            rows@.len() == i,
            forall|x: int| 0 <= x < i ==> (#[trigger] rows@[x])@.len() == width,
            forall|x: int, y: int|
                0 <= x < i && 0 <= y < width ==> gram_entry(
                    k,
                    a.rows@[x]@,
                    b.rows@[y]@,
                    damping,
                    x == y,
                    #[trigger] rows@[x]@[y],
                ),
    {
        let mut row: Vec<Real> = Vec::new();
        for j in 0..width
            invariant
                width == b.rows@.len(),
                i < a.rows@.len(),
                row@.len() == j,
                forall|y: int|
                    0 <= y < j ==> gram_entry(
                        k,
                        a.rows@[i as int]@,
                        b.rows@[y]@,
                        damping,
                        i == y,
                        #[trigger] row@[y],
                    ),
        {
            let p = inner(k, &a.rows[i], &b.rows[j]);
            let x = if i == j {
                k.sum(p, damping)
            } else {
                p
            };
            assert(matrix::inner_of(k, a.rows@[i as int]@, b.rows@[j as int]@, p));
            assert(gram_entry(k, a.rows@[i as int]@, b.rows@[j as int]@, damping, i == j, x));
            row.push(x);
        }
        rows.push(row);
    }
    Matrix { rows, cols: width }
}

/// Whether `y` is the answer to `(A Bᵀ + damping I) y = e`.
pub open spec fn damped_answer<K: SpatialMath + LinearMath>(
    k: &K,
    a: Matrix,
    b: Matrix,
    damping: Real,
    e: Seq<Real>,
    y: Option<Vec<Real>>,
) -> bool {
    exists|m: Matrix, v: Vec<Real>|
        {
            &&& gram(k, a, b, damping, m)
            &&& v@ == e
            &&& #[trigger] call_ensures(K::solve_system, (k, &m, &v), y)
        }
}

/// Answers `(A Bᵀ + damping I) y = e`.
pub fn damped_solve<K: SpatialMath + LinearMath>(
    k: &K,
    a: &Matrix,
    b: &Matrix,
    damping: Real,
    e: &Vec<Real>,
) -> (y: Option<Vec<Real>>)
    ensures
        damped_answer(k, *a, *b, damping, e@, y),
{
    let m = compute_gram(k, a, b, damping);
    let y = k.solve_system(&m, e);
    assert(call_ensures(K::solve_system, (k, &m, e), y));
    y
}

/// Whether `r` holds the numbers of `v`, each times `s`.
pub open spec fn scaled<K: SpatialMath>(k: &K, v: Seq<Real>, s: Real, r: Seq<Real>) -> bool {
    &&& r.len() == v.len()
    &&& forall|i: int| 0 <= i < v.len() ==> call_ensures(K::product, (k, v[i], s), #[trigger] r[i])
}

/// Multiplies numbers with a factor.
pub fn scale<K: SpatialMath>(k: &K, v: &Vec<Real>, s: Real) -> (r: Vec<Real>)
    ensures
        scaled(k, v@, s, r@),
{
    let mut r: Vec<Real> = Vec::new();
    for i in 0..v.len()
        invariant
            r@.len() == i,
            forall|j: int| 0 <= j < i ==> call_ensures(K::product, (k, v@[j], s), #[trigger] r@[j]),
    {
        r.push(k.product(v[i], s));
    }
    r
}

/// Whether `r` is the sum of two lists of numbers.
pub open spec fn added<K: SpatialMath>(k: &K, a: Seq<Real>, b: Seq<Real>, r: Seq<Real>) -> bool {
    &&& r.len() == a.len()
    &&& forall|i: int| 0 <= i < a.len() ==> call_ensures(K::sum, (k, a[i], b[i]), #[trigger] r[i])
}

/// Adds two lists of numbers.
pub fn plus<K: SpatialMath>(k: &K, a: &Vec<Real>, b: &Vec<Real>) -> (r: Vec<Real>)
    requires
        a@.len() == b@.len(),
    ensures
        added(k, a@, b@, r@),
{
    let mut r: Vec<Real> = Vec::new();
    for i in 0..a.len()
        invariant
            a@.len() == b@.len(),
            r@.len() == i,
            forall|j: int| 0 <= j < i ==> call_ensures(K::sum, (k, a@[j], b@[j]), #[trigger] r@[j]),
    {
        r.push(k.sum(a[i], b[i]));
    }
    r
}

// ── What the answer is for ──

proof fn gram_in_values<K: SpatialMath + LinearMath>(
    k: &K,
    a: Matrix,
    b: Matrix,
    damping: Real,
    m: Matrix,
    i: int,
    j: int,
)
    requires
        constrained::exact_solutions(k),
        a.wf(),
        b.wf(),
        a.cols == b.cols,
        gram(k, a, b, damping, m),
        0 <= i < a.height(),
        0 <= j < b.height(),
    ensures
        exact::val(m.at(i, j)) == algebra::total(
            a.cols as int,
            |c: int| exact::val(a.at(i, c)) * exact::val(b.at(j, c)),
        ) + if i == j {
            exact::val(damping)
        } else {
            0real
        },
{
    assert(gram_entry(k, a.rows@[i]@, b.rows@[j]@, damping, i == j, m.at(i, j)));
    let p = choose|p: Real|
        {
            &&& #[trigger] matrix::inner_of(k, a.rows@[i]@, b.rows@[j]@, p)
            &&& if i == j {
                call_ensures(K::sum, (k, p, damping), m.at(i, j))
            } else {
                m.at(i, j) == p
            }
        };
    let (u, v) = choose|u: Vec<Real>, v: Vec<Real>|
        u@ == a.rows@[i]@ && v@ == b.rows@[j]@ && #[trigger] call_ensures(K::inner, (k, &u, &v), p);
    algebra::total_same(
        a.cols as int,
        |c: int| exact::val(u@[c]) * exact::val(v@[c]),
        |c: int| exact::val(a.at(i, c)) * exact::val(b.at(j, c)),
    );
}

/// A damped answer, pulled back by the second matrix, is taken by the first one to what was asked for, but for
/// the damping times the answer.  With one matrix for both this is the step that the damped least squares
/// are least at.
pub proof fn damped_answers_solve<K: SpatialMath + LinearMath>(
    k: &K,
    a: Matrix,
    b: Matrix,
    damping: Real,
    e: Seq<Real>,
    y: Vec<Real>,
    x: Seq<Real>,
    i: int,
)
    requires
        constrained::exact_solutions(k),
        a.wf(),
        b.wf(),
        a.cols == b.cols,
        a.height() == b.height(),
        e.len() == a.height(),
        y@.len() == a.height(),
        damped_answer(k, a, b, damping, e, Some(y)),
        matrix::pulled(k, b, y@, x),
        0 <= i < a.height(),
    ensures
        algebra::total(a.cols as int, |c: int| exact::val(a.at(i, c)) * exact::val(x[c])) + exact::val(damping)
            * exact::val(y@[i]) == exact::val(e[i]),
{
    let (m, v) = choose|m: Matrix, v: Vec<Real>|
        {
            &&& gram(k, a, b, damping, m)
            &&& v@ == e
            &&& #[trigger] call_ensures(K::solve_system, (k, &m, &v), Some(y))
        };
    let n = a.height();
    let w = a.cols as int;
    assert(exact::val(v@[i]) == constrained::along(m, y@, i, n));
    let f = |j: int, c: int| exact::val(y@[j]) * (exact::val(a.at(i, c)) * exact::val(b.at(j, c)));
    let (given, rows, damped) = (
        |j: int| exact::val(m.at(i, j)) * exact::val(y@[j]),
        |j: int| algebra::total(w, |c: int| f(j, c)),
        |j: int|
            if j == i {
                exact::val(damping) * exact::val(y@[i])
            } else {
                0real
            },
    );
    assert forall|j: int| 0 <= j < n implies #[trigger] given(j) == rows(j) + damped(j) by {
        gram_in_values(k, a, b, damping, m, i, j);
        let products = |c: int| exact::val(a.at(i, c)) * exact::val(b.at(j, c));
        algebra::total_times(w, exact::val(y@[j]), products, |c: int| f(j, c));
        let (t, l, z) = (algebra::total(w, products), exact::val(damping), exact::val(y@[j]));
        assert((t + l) * z == z * t + l * z && (t + 0real) * z == z * t) by (nonlinear_arith);
    }
    algebra::total_plus(n, rows, damped, given);
    algebra::total_single(n, i, damped);
    algebra::total_swap(n, w, f);
    let g = |c: int, j: int| f(j, c);
    let (columns, taken) = (
        |c: int| algebra::total(n, |j: int| g(c, j)),
        |c: int| exact::val(a.at(i, c)) * exact::val(x[c]),
    );
    assert forall|c: int| 0 <= c < w implies #[trigger] columns(c) == taken(c) by {
        assert(matrix::inner_of(k, b.column(c), y@, x[c]));
        let (s, t) = choose|s: Vec<Real>, t: Vec<Real>|
            s@ == b.column(c) && t@ == y@ && #[trigger] call_ensures(K::inner, (k, &s, &t), x[c]);
        let (plain, scaled_up) = (|j: int| exact::val(s@[j]) * exact::val(t@[j]), |j: int| g(c, j));
        assert forall|j: int| 0 <= j < n implies #[trigger] scaled_up(j) == exact::val(a.at(i, c)) * plain(j) by {
            let (z, p, q) = (exact::val(y@[j]), exact::val(a.at(i, c)), exact::val(b.at(j, c)));
            assert(z * (p * q) == p * (q * z)) by (nonlinear_arith);
        }
        algebra::total_times(n, exact::val(a.at(i, c)), plain, scaled_up);
    }
    algebra::total_same(w, columns, taken);
    assert(algebra::total2(n, w, f) == algebra::total(n, rows));
    assert(algebra::total2(w, n, g) == algebra::total(w, columns));
}

} // verus!
