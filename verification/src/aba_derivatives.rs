//! Derivatives of forward dynamics, by way of those of inverse dynamics.

use vstd::prelude::*;
use crate::aba;
use crate::algebra;
use crate::exact;
use crate::matrix;
use crate::aba::aba;
use crate::data::repeat;
use crate::matrix::{from_columns, inner, LinearMath, Matrix};
use crate::model::Model;
use crate::number::Real;
use crate::spatial::SpatialMath;

verus! {

/// Derivatives of the torques that a motion takes.
#[derive(Clone, Debug)]
pub struct RneaDerivatives {
    pub dtau_dq: Matrix,
    pub dtau_dv: Matrix,
    /// The mass matrix.
    pub dtau_da: Matrix,
}

/// Derivatives of the accelerations.
#[derive(Clone, Debug)]
pub struct AbaDerivatives {
    pub ddq_dq: Matrix,
    pub ddq_dv: Matrix,
    /// The inverse of the mass matrix.
    pub ddq_dtau: Matrix,
}

/// Floating-point operations behind derivatives of dynamics.
///
/// Nothing is assumed of the results.
pub trait DerivativeMath {
    /// Derivatives of the torques that the motion `q`, `v`, `a` takes.
    fn rnea_derivatives(&self, model: &Model, q: &[Real], v: &[Real], a: &Vec<Real>) -> RneaDerivatives;

    /// The solution `x` of `m x = b`, unless the symmetric matrix is not positive definite.
    fn solve_positive(&self, m: &Matrix, b: &Vec<Real>) -> Option<Vec<Real>>;
}

/// Whether `x` is the answer to `m x = e` for the `c`-th unit vector `e`.
pub open spec fn inverse_column<K: DerivativeMath>(k: &K, m: Matrix, n: int, c: int, x: Option<Vec<Real>>) -> bool {
    exists|e: Vec<Real>| e@ == aba::unit(n, c) && #[trigger] call_ensures(K::solve_positive, (k, &m, &e), x)
}

/// Whether an answer is a column of height `n`.
pub open spec fn usable(x: Option<Vec<Real>>, n: int) -> bool {
    x matches Some(v) && v@.len() == n
}

/// Whether `r` is the inverse of the matrix of size `n`, column by column, unless one has
/// no solution.
pub open spec fn is_inverse<K: DerivativeMath>(k: &K, m: Matrix, n: int, r: Option<Matrix>) -> bool {
    exists|columns: Seq<Option<Vec<Real>>>|
        {
            &&& columns.len() == n
            &&& forall|c: int| 0 <= c < n ==> #[trigger] inverse_column(k, m, n, c, columns[c])
            &&& match r {
                Some(r) => {
                    &&& r.sized(n, n)
                    &&& forall|c: int|
                        0 <= c < n ==> usable(#[trigger] columns[c], n) && columns[c]->0@ == r.column(c)
                },
                None => exists|c: int| 0 <= c < n && !usable(#[trigger] columns[c], n),
            }
        }
}

fn invert<K: DerivativeMath>(k: &K, m: &Matrix, n: usize) -> (r: Option<Matrix>)
    ensures
        is_inverse(k, *m, n as int, r),
{
    let mut columns: Vec<Vec<Real>> = Vec::new();
    let mut complete = true;
    let ghost mut answers: Seq<Option<Vec<Real>>> = Seq::empty();
    for c in 0..n
        invariant
            answers.len() == c,
            forall|x: int| 0 <= x < c ==> #[trigger] inverse_column(k, *m, n as int, x, answers[x]),
            complete ==> columns@.len() == c && forall|x: int|
                0 <= x < c ==> usable(#[trigger] answers[x], n as int) && answers[x]->0 == columns@[x],
            !complete ==> exists|x: int| 0 <= x < c && !usable(#[trigger] answers[x], n as int),
    {
        let ghost before = answers;
        let mut e = repeat(Real::zero(), n);
        e.set(c, Real::one());
        assert(e@ =~= aba::unit(n as int, c as int));
        let x = k.solve_positive(m, &e);
        assert(call_ensures(K::solve_positive, (k, m, &e), x));
        assert(inverse_column(k, *m, n as int, c as int, x));
        proof {
            answers = answers.push(x);
            assert forall|y: int| 0 <= y < c + 1 implies #[trigger] inverse_column(
                k,
                *m,
                n as int,
                y,
                answers[y],
            ) by {
                if y < c {
                    assert(inverse_column(k, *m, n as int, y, before[y]));
                }
            }
            if !complete {
                let y = choose|y: int| 0 <= y < c && !usable(#[trigger] before[y], n as int);
                assert(!usable(answers[y], n as int));
            }
            assert(answers[c as int] == x);
        }
        match x {
            Some(v) => {
                if v.len() == n {
                    if complete {
                        columns.push(v);
                        assert(forall|y: int| 0 <= y < c ==> answers[y] == before[y]);
                    }
                } else {
                    complete = false;
                }
            },
            None => {
                complete = false;
            },
        }
    }
    if !complete {
        return None;
    }
    assert forall|c: int| 0 <= c < columns@.len() implies (#[trigger] columns@[c])@.len() == n by {
        assert(usable(answers[c], n as int));
    }
    let r = from_columns(&columns, n);
    assert forall|c: int| 0 <= c < n implies usable(#[trigger] answers[c], n as int) && answers[c]->0@
        == r.column(c) by {
        assert(answers[c]->0@ =~= r.column(c));
    }
    Some(r)
}

/// Whether `r` is the product of two matrices with the opposite sign.
pub open spec fn negative_product<K: LinearMath>(k: &K, a: Matrix, b: Matrix, r: Matrix) -> bool {
    &&& r.sized(a.height(), b.cols as int)
    &&& forall|i: int, j: int|
        0 <= i < a.height() && 0 <= j < b.cols ==> negative_inner(
            k,
            a.rows@[i]@,
            b.column(j),
            #[trigger] r.at(i, j),
        )
}

/// Whether `x` is the scalar product of two vectors with the opposite sign.
pub open spec fn negative_inner<K: LinearMath>(k: &K, a: Seq<Real>, b: Seq<Real>, x: Real) -> bool {
    exists|p: Real| #[trigger] matrix::inner_of(k, a, b, p) && x == p.negated()
}

fn negative_multiply<K: LinearMath>(k: &K, a: &Matrix, b: &Matrix) -> (r: Matrix)
    requires
        b.wf(),
    ensures
        negative_product(k, *a, *b, r),
{
    let height: usize = a.rows.len();
    let mut columns: Vec<Vec<Real>> = Vec::new();
    for j in 0..b.cols
        invariant
            height == a.rows@.len(),
            b.wf(),
            columns@.len() == j,
            forall|y: int| 0 <= y < j ==> (#[trigger] columns@[y])@.len() == height,
            forall|y: int, i: int|
                0 <= y < j && 0 <= i < height ==> negative_inner(
                    k,
                    a.rows@[i]@,
                    b.column(y),
                    #[trigger] columns@[y]@[i],
                ),
    {
        let column = b.copy_column(j);
        let mut c: Vec<Real> = Vec::new();
        for i in 0..height
            invariant
                height == a.rows@.len(),
                column@ == b.column(j as int),
                c@.len() == i,
                forall|x: int|
                    0 <= x < i ==> negative_inner(k, a.rows@[x]@, b.column(j as int), #[trigger] c@[x]),
        {
            let p = inner(k, &a.rows[i], &column);
            let x = p.neg();
            assert(matrix::inner_of(k, a.rows@[i as int]@, b.column(j as int), p));
            assert(negative_inner(k, a.rows@[i as int]@, b.column(j as int), x));
            c.push(x);
        }
        columns.push(c);
    }
    from_columns(&columns, height)
}

/// Whether the derivatives of inverse dynamics have the right size.
pub open spec fn complete(d: RneaDerivatives, n: int) -> bool {
    &&& d.dtau_dq.sized(n, n)
    &&& d.dtau_dv.sized(n, n)
    &&& d.dtau_da.sized(n, n)
}

/// Whether `r` are the derivatives of forward dynamics that follow from those of inverse
/// dynamics, if the mass matrix can be inverted.
pub open spec fn derived<K: LinearMath + DerivativeMath>(
    k: &K,
    d: RneaDerivatives,
    n: int,
    r: Option<AbaDerivatives>,
) -> bool {
    if complete(d, n) {
        exists|inverse: Option<Matrix>|
            {
                &&& #[trigger] is_inverse(k, d.dtau_da, n, inverse)
                &&& match r {
                    Some(r) => {
                        &&& inverse == Some(r.ddq_dtau)
                        &&& negative_product(k, r.ddq_dtau, d.dtau_dq, r.ddq_dq)
                        &&& negative_product(k, r.ddq_dtau, d.dtau_dv, r.ddq_dv)
                    },
                    None => inverse is None,
                }
            }
    } else {
        r is None
    }
}

fn has_size(m: &Matrix, n: usize) -> (r: bool)
    ensures
        r == m.sized(n as int, n as int),
{
    if m.cols != n || m.rows.len() != n {
        return false;
    }
    for i in 0..m.rows.len()
        invariant
            m.cols == n,
            forall|x: int| 0 <= x < i ==> (#[trigger] m.rows@[x])@.len() == n,
    {
        if m.rows[i].len() != n {
            assert(m.rows@[i as int]@.len() != n);
            return false;
        }
    }
    true
}

/// Derivatives of forward dynamics from those of inverse dynamics, unless the mass matrix
/// cannot be inverted.
pub fn derive<K: LinearMath + DerivativeMath>(k: &K, d: &RneaDerivatives, n: usize) -> (r: Option<AbaDerivatives>)
    ensures
        derived(k, *d, n as int, r),
{
    if !has_size(&d.dtau_dq, n) || !has_size(&d.dtau_dv, n) || !has_size(&d.dtau_da, n) {
        return None;
    }
    let inverse = invert(k, &d.dtau_da, n);
    assert(is_inverse(k, d.dtau_da, n as int, inverse));
    match inverse {
        Some(ddq_dtau) => {
            let ddq_dq = negative_multiply(k, &ddq_dtau, &d.dtau_dq);
            let ddq_dv = negative_multiply(k, &ddq_dtau, &d.dtau_dv);
            Some(AbaDerivatives { ddq_dq, ddq_dv, ddq_dtau })
        },
        None => None,
    }
}

/// Derivatives of the joint accelerations by configuration, velocity and torque, unless
/// the mass matrix cannot be inverted.
pub fn compute_aba_derivatives<K: SpatialMath + LinearMath + DerivativeMath>(
    k: &K,
    model: &Model,
    q: &[Real],
    v: &[Real],
    tau: &[Real],
) -> (r: Option<AbaDerivatives>)
    requires
        model.wf(),
        q@.len() == model.nq,
        v@.len() == model.nv,
        tau@.len() == model.nv,
    ensures
        exists|qdd: Vec<Real>, d: RneaDerivatives|
            {
                &&& aba::forward_dynamics(k, *model, model.gravity, q@, v@, tau@, qdd@)
                &&& #[trigger] call_ensures(K::rnea_derivatives, (k, model, q, v, &qdd), d)
                &&& derived(k, d, model.nv as int, r)
            },
{
    let qdd = aba(k, model, q, v, tau);
    let d = k.rnea_derivatives(model, q, v, &qdd);
    assert(call_ensures(K::rnea_derivatives, (k, model, q, v, &qdd), d));
    derive(k, &d, model.nv)
}

// ── What the derivatives are ──

/// Whether products are computed and systems solved exactly, or not at all.
pub open spec fn exact_derivatives<K: LinearMath + DerivativeMath>(k: &K) -> bool {
    &&& forall|a: Vec<Real>, b: Vec<Real>, r: Real| #[trigger]
        call_ensures(K::inner, (k, &a, &b), r) ==> exact::val(r) == algebra::total(
            a@.len() as int,
            |i: int| exact::val(a@[i]) * exact::val(b@[i]),
        )
    &&& forall|m: Matrix, b: Vec<Real>, x: Option<Vec<Real>>| #[trigger]
        call_ensures(K::solve_positive, (k, &m, &b), x) ==> (x matches Some(y) ==> forall|i: int|
            0 <= i < b@.len() ==> exact::val(#[trigger] b@[i]) == algebra::total(
                b@.len() as int,
                |j: int| exact::val(m.at(i, j)) * exact::val(y@[j]),
            ))
}

/// The entry at `i` and `c` of the product of two matrices of size `n`.
pub open spec fn product_at(n: int, a: Matrix, b: Matrix, i: int, c: int) -> real {
    algebra::total(n, |j: int| exact::val(a.at(i, j)) * exact::val(b.at(j, c)))
}

proof fn inverse_inverts<K: LinearMath + DerivativeMath>(k: &K, m: Matrix, n: int, r: Matrix, i: int, c: int)
    requires
        exact_derivatives(k),
        is_inverse(k, m, n, Some(r)),
        0 <= i < n,
        0 <= c < n,
    ensures
        product_at(n, m, r, i, c) == algebra::unit(c)(i),
{
    let columns = choose|columns: Seq<Option<Vec<Real>>>|
        {
            &&& columns.len() == n
            &&& forall|c: int| 0 <= c < n ==> #[trigger] inverse_column(k, m, n, c, columns[c])
            &&& r.sized(n, n)
            &&& forall|c: int| 0 <= c < n ==> usable(#[trigger] columns[c], n) && columns[c]->0@ == r.column(c)
        };
    assert(inverse_column(k, m, n, c, columns[c]));
    let e = choose|e: Vec<Real>|
        e@ == aba::unit(n, c) && #[trigger] call_ensures(K::solve_positive, (k, &m, &e), columns[c]);
    assert(usable(columns[c], n));
    let y = columns[c]->0;
    exact::signs_are_of_values(Real::zero());
    assert(exact::val(e@[i]) == algebra::unit(c)(i));
    let (f, g) = (
        |j: int| exact::val(m.at(i, j)) * exact::val(y@[j]),
        |j: int| exact::val(m.at(i, j)) * exact::val(r.at(j, c)),
    );
    assert forall|j: int| 0 <= j < n implies #[trigger] f(j) == g(j) by {
        assert(r.column(c)[j] == r.at(j, c));
    }
    algebra::total_same(n, f, g);
}

proof fn product_gives_back<K: LinearMath + DerivativeMath>(
    k: &K,
    m: Matrix,
    inverse: Matrix,
    b: Matrix,
    r: Matrix,
    n: int,
    i: int,
    c: int,
)
    requires
        exact_derivatives(k),
        inverse.sized(n, n),
        b.sized(n, n),
        is_inverse(k, m, n, Some(inverse)),
        negative_product(k, inverse, b, r),
        0 <= i < n,
        0 <= c < n,
    ensures
        product_at(n, m, r, i, c) == -exact::val(b.at(i, c)),
{
    let f = |j: int, l: int| exact::val(m.at(i, j)) * (exact::val(inverse.at(j, l)) * exact::val(b.at(l, c)));
    let (given, rows) = (
        |j: int| exact::val(m.at(i, j)) * exact::val(r.at(j, c)),
        |j: int| algebra::total(n, |l: int| f(j, l)),
    );
    let turned = |j: int| -1real * rows(j);
    assert forall|j: int| 0 <= j < n implies #[trigger] given(j) == turned(j) by {
        assert(negative_inner(k, inverse.rows@[j]@, b.column(c), r.at(j, c)));
        let p = choose|p: Real| #[trigger]
            matrix::inner_of(k, inverse.rows@[j]@, b.column(c), p) && r.at(j, c) == p.negated();
        exact::signs_are_of_values(p);
        let (u, v) = choose|u: Vec<Real>, v: Vec<Real>|
            u@ == inverse.rows@[j]@ && v@ == b.column(c) && #[trigger] call_ensures(K::inner, (k, &u, &v), p);
        let plain = |l: int| exact::val(u@[l]) * exact::val(v@[l]);
        let scaled = |l: int| f(j, l);
        assert forall|l: int| 0 <= l < n implies #[trigger] scaled(l) == exact::val(m.at(i, j)) * plain(l) by {
            assert(b.column(c)[l] == b.at(l, c));
        }
        algebra::total_times(n, exact::val(m.at(i, j)), plain, scaled);
        let (x, y) = (exact::val(m.at(i, j)), algebra::total(n, plain));
        assert(x * -y == -1real * (x * y)) by (nonlinear_arith);
    }
    algebra::total_same(n, given, turned);
    algebra::total_times(n, -1real, rows, turned);
    algebra::total_swap(n, n, f);
    let g = |l: int, j: int| f(j, l);
    let (columns, picked) = (
        |l: int| algebra::total(n, |j: int| g(l, j)),
        |l: int| exact::val(b.at(l, c)) * algebra::unit(l)(i),
    );
    assert forall|l: int| 0 <= l < n implies #[trigger] columns(l) == picked(l) by {
        inverse_inverts(k, m, n, inverse, i, l);
        let (plain, scaled) = (
            |j: int| exact::val(m.at(i, j)) * exact::val(inverse.at(j, l)),
            |j: int| g(l, j),
        );
        assert forall|j: int| 0 <= j < n implies #[trigger] scaled(j) == exact::val(b.at(l, c)) * plain(j) by {
            let (x, y, z) = (exact::val(m.at(i, j)), exact::val(inverse.at(j, l)), exact::val(b.at(l, c)));
            assert(x * (y * z) == z * (x * y)) by (nonlinear_arith);
        }
        algebra::total_times(n, exact::val(b.at(l, c)), plain, scaled);
    }
    algebra::total_same(n, columns, picked);
    assert forall|l: int| 0 <= l < n && l != i implies #[trigger] picked(l) == 0real by {
        let y = exact::val(b.at(l, c));
        assert(y * 0real == 0real);
    }
    algebra::total_single(n, i, picked);
    let y = exact::val(b.at(i, c));
    assert(y * 1real == y);
    assert(algebra::total2(n, n, f) == algebra::total(n, rows));
    assert(algebra::total2(n, n, g) == algebra::total(n, columns));
}

/// The derivatives of the accelerations answer for those of the torques: the mass matrix times the change of
/// the accelerations by the torques is one, and times that by configuration and velocity it makes up for the
/// change of the torques that the motion takes.
pub proof fn derivatives_make_up_for_each_other<K: LinearMath + DerivativeMath>(
    k: &K,
    d: RneaDerivatives,
    n: int,
    r: AbaDerivatives,
    i: int,
    c: int,
)
    requires
        exact_derivatives(k),
        derived(k, d, n, Some(r)),
        0 <= i < n,
        0 <= c < n,
    ensures
        product_at(n, d.dtau_da, r.ddq_dtau, i, c) == algebra::unit(c)(i),
        product_at(n, d.dtau_da, r.ddq_dq, i, c) == -exact::val(d.dtau_dq.at(i, c)),
        product_at(n, d.dtau_da, r.ddq_dv, i, c) == -exact::val(d.dtau_dv.at(i, c)),
{
    inverse_inverts(k, d.dtau_da, n, r.ddq_dtau, i, c);
    product_gives_back(k, d.dtau_da, r.ddq_dtau, d.dtau_dq, r.ddq_dq, n, i, c);
    product_gives_back(k, d.dtau_da, r.ddq_dtau, d.dtau_dv, r.ddq_dv, n, i, c);
}

} // verus!
