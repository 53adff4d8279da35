//! The matrix of Coriolis and centrifugal effects.

use vstd::prelude::*;
use vstd::arithmetic::power2::pow2;
use crate::algebra;
use crate::exact;
use crate::rigid;
use crate::crba;
use crate::jacobian;
use crate::crba::crba;
use crate::data::copy_slice;
use crate::matrix::Matrix;
use crate::model::Model;
use crate::number::Real;
use crate::spatial::SpatialMath;

verus! {

/// Step of finite differences: 1e-8.
pub const STEP: u64 = 0x3e45798ee2308c3a;

/// Twice the step.
pub const TWO_STEPS: u64 = 0x3e55798ee2308c3a;

/// One half.
pub const HALF: u64 = 0x3fe0000000000000;

/// Whether `x` is the number of the configuration that goes with the number `c` of the
/// velocity: that at the same place of the same joint.
pub open spec fn goes_with(m: Model, c: int, x: int) -> bool {
    exists|i: int|
        0 < i < m.joints@.len() && #[trigger] jacobian::owns(m, i, c) && x == m.q_idx@[i] + c - m.v_idx@[i]
}

/// Finds the number of the configuration that goes with a number of the velocity.
fn find_q_index_for_v(model: &Model, v_index: usize) -> (r: usize)
    requires
        model.wf(),
        v_index < model.nv,
    ensures
        r < model.nq,
        goes_with(*model, v_index as int, r as int),
{
    let n: usize = model.joints.len();
    for i in 1..n
        invariant
            n == model.joints@.len(),
            model.wf(),
            v_index < model.nv,
            forall|j: int| 0 < j < i ==> !#[trigger] jacobian::owns(*model, j, v_index as int),
    {
        let vi: usize = model.v_idx[i];
        proof {
            model.ranges(i as int);
        }
        let m: usize = model.joints[i].joint_type.nv();
        if v_index >= vi && v_index - vi < m {
            assert(jacobian::owns(*model, i as int, v_index as int));
            return model.q_idx[i] + (v_index - vi);
        }
    }
    proof {
        let j = crba::every_number_is_owned(*model, v_index as int, n as int);
        assert(model.kind(0).nv() == 0);
        assert(jacobian::owns(*model, j, v_index as int));
        assert(false);
    }
    0
}

/// Whether `a` and `b` are `q` with its `x`-th number a step larger and a step smaller.
pub open spec fn beside<K: SpatialMath>(k: &K, q: Seq<Real>, x: int, a: Seq<Real>, b: Seq<Real>) -> bool {
    &&& a == q.update(x, a[x])
    &&& b == q.update(x, b[x])
    &&& call_ensures(K::sum, (k, q[x], Real { bits: STEP }), a[x])
    &&& call_ensures(K::difference, (k, q[x], Real { bits: STEP }), b[x])
}

/// The configurations with one number a step larger and a step smaller.
pub fn shift<K: SpatialMath>(k: &K, q: &[Real], x: usize) -> (r: (Vec<Real>, Vec<Real>))
    requires
        x < q@.len(),
    ensures
        beside(k, q@, x as int, r.0@, r.1@),
{
    let step = Real { bits: STEP };
    let mut a = copy_slice(q);
    let mut b = copy_slice(q);
    a.set(x, k.sum(q[x], step));
    b.set(x, k.difference(q[x], step));
    assert(a@ =~= q@.update(x as int, a@[x as int]));
    assert(b@ =~= q@.update(x as int, b@[x as int]));
    (a, b)
}

/// Whether `r` is the slope between two values two steps apart.
pub open spec fn slope<K: SpatialMath>(k: &K, a: Real, b: Real, r: Real) -> bool {
    exists|d: Real| #[trigger]
        call_ensures(K::difference, (k, a, b), d) && call_ensures(
            K::quotient,
            (k, d, Real { bits: TWO_STEPS }),
            r,
        )
}

/// Whether `r` is the derivative of the mass matrix by the number of the configuration
/// that goes with the number `c` of the velocity.
pub open spec fn mass_slope<K: SpatialMath>(k: &K, m: Model, q: Seq<Real>, c: int, r: Matrix) -> bool {
    exists|x: int, qa: Seq<Real>, qb: Seq<Real>, a: Matrix, b: Matrix|
        {
            &&& goes_with(m, c, x)
            &&& #[trigger] beside(k, q, x, qa, qb)
            &&& a.sized(m.nv as int, m.nv as int)
            &&& b.sized(m.nv as int, m.nv as int)
            &&& #[trigger] crba::mass_matrix(k, m, qa, a)
            &&& #[trigger] crba::mass_matrix(k, m, qb, b)
            &&& slopes(k, m.nv as int, a, b, r)
        }
}

/// Whether `r` holds the slopes between the entries of two matrices of size `n`.
pub open spec fn slopes<K: SpatialMath>(k: &K, n: int, a: Matrix, b: Matrix, r: Matrix) -> bool {
    &&& r.sized(n, n)
    &&& forall|i: int, j: int|
        0 <= i < n && 0 <= j < n ==> slope(k, a.at(i, j), b.at(i, j), #[trigger] r.at(i, j))
}

fn compute_slopes<K: SpatialMath>(k: &K, n: usize, a: &Matrix, b: &Matrix) -> (r: Matrix)
    requires
        a.sized(n as int, n as int),
        b.sized(n as int, n as int),
    ensures
        slopes(k, n as int, *a, *b, r),
{
    let mut rows: Vec<Vec<Real>> = Vec::new();
    for i in 0..n
        invariant
            a.sized(n as int, n as int),
            b.sized(n as int, n as int),
            rows@.len() == i,
            forall|x: int| 0 <= x < i ==> (#[trigger] rows@[x])@.len() == n,
            forall|x: int, j: int|
                0 <= x < i && 0 <= j < n ==> slope(k, a.at(x, j), b.at(x, j), #[trigger] rows@[x]@[j]),
    {
        let mut row: Vec<Real> = Vec::new();
        for j in 0..n
            invariant
                a.sized(n as int, n as int),
                b.sized(n as int, n as int),
                i < n,
                row@.len() == j,
                forall|y: int|
                    0 <= y < j ==> slope(k, a.at(i as int, y), b.at(i as int, y), #[trigger] row@[y]),
        {
            let d = k.difference(a.get(i, j), b.get(i, j));
            let r = k.quotient(d, Real { bits: TWO_STEPS });
            assert(call_ensures(
                K::difference,
                (k, a.at(i as int, j as int), b.at(i as int, j as int)),
                d,
            ));
            assert(slope(k, a.at(i as int, j as int), b.at(i as int, j as int), r));
            row.push(r);
        }
        rows.push(row);
    }
    Matrix { rows, cols: n }
}

/// Whether `r` is the Christoffel symbol `(∂M_ij/∂q_c + ∂M_ic/∂q_j - ∂M_jc/∂q_i) / 2`.
pub open spec fn christoffel<K: SpatialMath>(k: &K, dm: Seq<Matrix>, i: int, j: int, c: int, r: Real) -> bool {
    exists|s: Real, d: Real|
        {
            &&& #[trigger] call_ensures(K::sum, (k, dm[c].at(i, j), dm[j].at(i, c)), s)
            &&& #[trigger] call_ensures(K::difference, (k, s, dm[i].at(j, c)), d)
            &&& call_ensures(K::product, (k, Real { bits: HALF }, d), r)
        }
}

/// Whether `r` is the sum of the first `n` symbols, each times its velocity.
pub open spec fn christoffel_sum<K: SpatialMath>(
    k: &K,
    dm: Seq<Matrix>,
    v: Seq<Real>,
    i: int,
    j: int,
    n: int,
    r: Real,
) -> bool
    decreases n,
{
    if n <= 0 {
        r == Real::zero()
    } else {
        exists|p: Real, g: Real, t: Real|
            {
                &&& christoffel_sum(k, dm, v, i, j, n - 1, p)
                &&& christoffel(k, dm, i, j, n - 1, g)
                &&& #[trigger] call_ensures(K::product, (k, g, v[n - 1]), t)
                &&& #[trigger] call_ensures(K::sum, (k, p, t), r)
            }
    }
}

fn coriolis_entry<K: SpatialMath>(k: &K, dm: &Vec<Matrix>, v: &[Real], i: usize, j: usize, n: usize) -> (r: Real)
    requires
        dm@.len() == n,
        v@.len() == n,
        forall|c: int| 0 <= c < n ==> (#[trigger] dm@[c]).sized(n as int, n as int),
        i < n,
        j < n,
    ensures
        christoffel_sum(k, dm@, v@, i as int, j as int, n as int, r),
{
    let mut r = Real::zero();
    for c in 0..n
        invariant
            dm@.len() == n,
            v@.len() == n,
            forall|c: int| 0 <= c < n ==> (#[trigger] dm@[c]).sized(n as int, n as int),
            i < n,
            j < n,
            christoffel_sum(k, dm@, v@, i as int, j as int, c as int, r),
    {
        assert(dm@[c as int].sized(n as int, n as int));
        assert(dm@[i as int].sized(n as int, n as int));
        assert(dm@[j as int].sized(n as int, n as int));
        let s = k.sum(dm[c].get(i, j), dm[j].get(i, c));
        let d = k.difference(s, dm[i].get(j, c));
        let g = k.product(Real { bits: HALF }, d);
        assert(call_ensures(
            K::sum,
            (k, dm@[c as int].at(i as int, j as int), dm@[j as int].at(i as int, c as int)),
            s,
        ));
        assert(call_ensures(K::difference, (k, s, dm@[i as int].at(j as int, c as int)), d));
        assert(christoffel(k, dm@, i as int, j as int, c as int, g));
        let t = k.product(g, v[c]);
        let p = r;
        r = k.sum(p, t);
        assert(call_ensures(K::product, (k, g, v@[c as int]), t));
        assert(call_ensures(K::sum, (k, p, t), r));
    }
    r
}

/// Whether `r` is the Coriolis matrix for a configuration and velocity.
pub open spec fn coriolis<K: SpatialMath>(k: &K, m: Model, q: Seq<Real>, v: Seq<Real>, r: Matrix) -> bool {
    exists|dm: Seq<Matrix>|
        {
            &&& dm.len() == m.nv
            &&& forall|c: int| 0 <= c < m.nv ==> mass_slope(k, m, q, c, #[trigger] dm[c])
            &&& #[trigger] christoffel_sums(k, dm, v, m.nv as int, r)
        }
}

/// Whether the entries of `r` are sums of Christoffel symbols times velocities.
pub open spec fn christoffel_sums<K: SpatialMath>(k: &K, dm: Seq<Matrix>, v: Seq<Real>, n: int, r: Matrix) -> bool {
    &&& r.sized(n, n)
    &&& forall|i: int, j: int|
        0 <= i < n && 0 <= j < n ==> christoffel_sum(k, dm, v, i, j, n, #[trigger] r.at(i, j))
}

/// The Coriolis matrix, by Christoffel symbols of the mass matrix.
pub fn compute_coriolis_matrix<K: SpatialMath>(k: &K, model: &Model, q: &[Real], v: &[Real]) -> (r: Matrix)
    requires
        model.wf(),
        q@.len() == model.nq,
        v@.len() == model.nv,
    ensures
        coriolis(k, *model, q@, v@, r),
{
    let n: usize = model.nv;
    let mut dm: Vec<Matrix> = Vec::new();
    for c in 0..n
        invariant
            n == model.nv,
            model.wf(),
            q@.len() == model.nq,
            dm@.len() == c,
            forall|x: int| 0 <= x < c ==> mass_slope(k, *model, q@, x, #[trigger] dm@[x]),
            forall|x: int| 0 <= x < c ==> (#[trigger] dm@[x]).sized(n as int, n as int),
    {
        let x: usize = find_q_index_for_v(model, c);
        let (qa, qb) = shift(k, q, x);
        let a = crba(k, model, qa.as_slice());
        let b = crba(k, model, qb.as_slice());
        let d = compute_slopes(k, n, &a, &b);
        assert(beside(k, q@, x as int, qa@, qb@));
        assert(crba::mass_matrix(k, *model, qa@, a));
        assert(crba::mass_matrix(k, *model, qb@, b));
        assert(mass_slope(k, *model, q@, c as int, d));
        dm.push(d);
    }
    let mut rows: Vec<Vec<Real>> = Vec::new();
    for i in 0..n
        invariant
            n == v@.len(),
            dm@.len() == n,
            forall|x: int| 0 <= x < n ==> (#[trigger] dm@[x]).sized(n as int, n as int),
            rows@.len() == i,
            forall|x: int| 0 <= x < i ==> (#[trigger] rows@[x])@.len() == n,
            forall|x: int, j: int|
                0 <= x < i && 0 <= j < n ==> christoffel_sum(
                    k,
                    dm@,
                    v@,
                    x,
                    j,
                    n as int,
                    #[trigger] rows@[x]@[j],
                ),
    {
        let mut row: Vec<Real> = Vec::new();
        for j in 0..n
            invariant
                n == v@.len(),
                i < n,
                dm@.len() == n,
                forall|x: int| 0 <= x < n ==> (#[trigger] dm@[x]).sized(n as int, n as int),
                row@.len() == j,
                forall|y: int|
                    0 <= y < j ==> christoffel_sum(
                        k,
                        dm@,
                        v@,
                        i as int,
                        y,
                        n as int,
                        #[trigger] row@[y],
                    ),
        {
            row.push(coriolis_entry(k, &dm, v, i, j, n));
        }
        rows.push(row);
    }
    let r = Matrix { rows, cols: n };
    assert(christoffel_sums(k, dm@, v@, n as int, r));
    r
}

// ── What the matrix is for ──

/// One half has the value that it stands for.
proof fn half_is_half()
    ensures
        2real * exact::val(Real { bits: HALF }) == 1real,
{
    reveal(exact::val);
    let half = Real { bits: HALF };
    assert(half.magnitude_spec() / (exact::SIGNIFICANDS as int) == 1022);
    assert(half.magnitude_spec() % (exact::SIGNIFICANDS as int) == 0);
    vstd::arithmetic::power2::lemma_pow2_adds(52, 1021);
    vstd::arithmetic::power2::lemma_pow2_unfold(1074);
    vstd::arithmetic::power2::lemma2_to64();
    vstd::arithmetic::power2::lemma2_to64_rest();
    vstd::arithmetic::power2::lemma_pow2_pos(1073);
    let (h, d) = (pow2(1073) as real, pow2(1074) as real);
    assert(exact::units(half.magnitude_spec()) == pow2(1073));
    assert(2real * (h / d) == 1real) by (nonlinear_arith)
        requires
            d == 2real * h,
            h > 0real,
    ;
}

/// The rate at which the `c`-th number of the velocity changes the entry at `i` and `j`.
spec fn rate(dm: Seq<Matrix>, v: Seq<Real>, i: int, j: int) -> spec_fn(int) -> real {
    |c: int| exact::val(dm[c].at(i, j)) * exact::val(v[c])
}

/// The value of a Christoffel symbol.
spec fn symbol(dm: Seq<Matrix>, i: int, j: int, c: int) -> real {
    exact::val(Real { bits: HALF }) * (exact::val(dm[c].at(i, j)) + exact::val(dm[j].at(i, c)) - exact::val(
        dm[i].at(j, c),
    ))
}

proof fn christoffel_sum_is_exact<K: SpatialMath>(k: &K, dm: Seq<Matrix>, v: Seq<Real>, i: int, j: int, n: int, r: Real)
    requires
        rigid::exact_scalars(k),
        christoffel_sum(k, dm, v, i, j, n, r),
    ensures
        exact::val(r) == algebra::total(n, |c: int| symbol(dm, i, j, c) * exact::val(v[c])),
    decreases n,
{
    exact::signs_are_of_values(Real::zero());
    let f = |c: int| symbol(dm, i, j, c) * exact::val(v[c]);
    if n > 0 {
        let (p, g, t) = choose|p: Real, g: Real, t: Real|
            {
                &&& christoffel_sum(k, dm, v, i, j, n - 1, p)
                &&& christoffel(k, dm, i, j, n - 1, g)
                &&& #[trigger] call_ensures(K::product, (k, g, v[n - 1]), t)
                &&& #[trigger] call_ensures(K::sum, (k, p, t), r)
            };
        christoffel_sum_is_exact(k, dm, v, i, j, n - 1, p);
        assert(algebra::total(n, f) == algebra::total(n - 1, f) + f(n - 1));
    }
}

/// Whether `dm` holds the derivatives of the mass matrix, and `rates` says at which rates its entries change
/// under the velocities `v`.
pub open spec fn mass_rates<K: SpatialMath>(
    k: &K,
    m: Model,
    q: Seq<Real>,
    v: Seq<Real>,
    dm: Seq<Matrix>,
    rates: spec_fn(int, int) -> real,
) -> bool {
    &&& dm.len() == m.nv
    &&& forall|c: int| 0 <= c < m.nv ==> mass_slope(k, m, q, c, #[trigger] dm[c])
    &&& forall|i: int, j: int|
        0 <= i < m.nv && 0 <= j < m.nv ==> #[trigger] rates(i, j) == algebra::total(
            m.nv as int,
            |c: int| exact::val(dm[c].at(i, j)) * exact::val(v[c]),
        )
}

/// The Coriolis matrix plus its transpose is the rate at which the mass matrix changes: so forces of velocity
/// do no work but for what the change of the mass matrix takes.
pub proof fn coriolis_is_half_the_rate_of_mass<K: SpatialMath>(k: &K, m: Model, q: Seq<Real>, v: Seq<Real>, r: Matrix)
    requires
        m.wf(),
        rigid::exact_scalars(k),
        coriolis(k, m, q, v, r),
    ensures
        exists|dm: Seq<Matrix>, rates: spec_fn(int, int) -> real| #[trigger]
            mass_rates(k, m, q, v, dm, rates) && forall|i: int, j: int|
                0 <= i < m.nv && 0 <= j < m.nv ==> exact::val(#[trigger] r.at(i, j)) + exact::val(r.at(j, i)) == rates(
                    i,
                    j,
                ),
{
    let n = m.nv as int;
    let dm = choose|dm: Seq<Matrix>|
        {
            &&& dm.len() == m.nv
            &&& forall|c: int| 0 <= c < m.nv ==> mass_slope(k, m, q, c, #[trigger] dm[c])
            &&& #[trigger] christoffel_sums(k, dm, v, m.nv as int, r)
        };
    let rates = |i: int, j: int| algebra::total(n, rate(dm, v, i, j));
    half_is_half();
    assert forall|i: int, j: int| 0 <= i < n && 0 <= j < n implies exact::val(#[trigger] r.at(i, j)) + exact::val(
        r.at(j, i),
    ) == rates(i, j) by {
        assert(christoffel_sum(k, dm, v, i, j, n, r.at(i, j)));
        assert(christoffel_sum(k, dm, v, j, i, n, r.at(j, i)));
        christoffel_sum_is_exact(k, dm, v, i, j, n, r.at(i, j));
        christoffel_sum_is_exact(k, dm, v, j, i, n, r.at(j, i));
        let (f, g) = (
            |c: int| symbol(dm, i, j, c) * exact::val(v[c]),
            |c: int| symbol(dm, j, i, c) * exact::val(v[c]),
        );
        let h = rate(dm, v, i, j);
        assert forall|c: int| 0 <= c < n implies #[trigger] h(c) == f(c) + g(c) by {
            slopes_are_even(k, m, q, c, dm[c], i, j);
            slopes_are_even(k, m, q, i, dm[i], j, c);
            slopes_are_even(k, m, q, j, dm[j], i, c);
            let (half, a, x, y, z) = (
                exact::val(Real { bits: HALF }),
                exact::val(dm[c].at(i, j)),
                exact::val(dm[j].at(i, c)),
                exact::val(dm[i].at(j, c)),
                exact::val(v[c]),
            );
            assert(a * z == half * (a + x - y) * z + half * (a + y - x) * z) by (nonlinear_arith)
                requires
                    2real * half == 1real,
            ;
        }
        algebra::total_plus(n, f, g, h);
    }
    assert forall|i: int, j: int| 0 <= i < n && 0 <= j < n implies #[trigger] rates(i, j) == algebra::total(
        n,
        |c: int| exact::val(dm[c].at(i, j)) * exact::val(v[c]),
    ) by {
        algebra::total_same(n, rate(dm, v, i, j), |c: int| exact::val(dm[c].at(i, j)) * exact::val(v[c]));
    }
    assert(mass_rates(k, m, q, v, dm, rates));
}

/// The derivative of the mass matrix is the same by row and by column.
proof fn slopes_are_even<K: SpatialMath>(k: &K, m: Model, q: Seq<Real>, c: int, d: Matrix, i: int, j: int)
    requires
        m.wf(),
        rigid::exact_scalars(k),
        mass_slope(k, m, q, c, d),
        0 <= i < m.nv,
        0 <= j < m.nv,
    ensures
        exact::val(d.at(i, j)) == exact::val(d.at(j, i)),
{
    let (x, qa, qb, a, b) = choose|x: int, qa: Seq<Real>, qb: Seq<Real>, a: Matrix, b: Matrix|
        {
            &&& goes_with(m, c, x)
            &&& #[trigger] beside(k, q, x, qa, qb)
            &&& a.sized(m.nv as int, m.nv as int)
            &&& b.sized(m.nv as int, m.nv as int)
            &&& #[trigger] crba::mass_matrix(k, m, qa, a)
            &&& #[trigger] crba::mass_matrix(k, m, qb, b)
            &&& slopes(k, m.nv as int, a, b, d)
        };
    crba::mass_matrix_is_symmetric(k, m, qa, a);
    crba::mass_matrix_is_symmetric(k, m, qb, b);
    assert(slope(k, a.at(i, j), b.at(i, j), d.at(i, j)));
    assert(slope(k, a.at(j, i), b.at(j, i), d.at(j, i)));
    assert(a.at(i, j) == a.at(j, i) && b.at(i, j) == b.at(j, i));
    let two = Real { bits: TWO_STEPS };
    exact::signs_are_of_values(Real::zero());
    exact::order_is_of_values(Real::zero(), two);
    let (u, w, z) = (exact::val(d.at(i, j)), exact::val(d.at(j, i)), exact::val(two));
    assert(u == w) by (nonlinear_arith)
        requires
            u * z == w * z,
            z > 0real,
    ;
}

} // verus!
