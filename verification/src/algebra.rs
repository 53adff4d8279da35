//! Sums and vectors of six values.

use vstd::prelude::*;

verus! {

// ── Sums ──

/// The sum of the first `n` values of `f`.
pub open spec fn total(n: int, f: spec_fn(int) -> real) -> real
    decreases n,
{
    if n <= 0 {
        0real
    } else {
        total(n - 1, f) + f(n - 1)
    }
}

/// Sums of the same values are the same.
pub proof fn total_same(n: int, f: spec_fn(int) -> real, g: spec_fn(int) -> real)
    requires
        forall|i: int| 0 <= i < n ==> #[trigger] f(i) == g(i),
    ensures
        total(n, f) == total(n, g),
    decreases n,
{
    if n > 0 {
        total_same(n - 1, f, g);
        assert(f(n - 1) == g(n - 1));
    }
}

/// Sums are added value by value.
pub proof fn total_plus(n: int, f: spec_fn(int) -> real, g: spec_fn(int) -> real, h: spec_fn(int) -> real)
    requires
        forall|i: int| 0 <= i < n ==> #[trigger] h(i) == f(i) + g(i),
    ensures
        total(n, h) == total(n, f) + total(n, g),
    decreases n,
{
    if n > 0 {
        total_plus(n - 1, f, g, h);
        assert(h(n - 1) == f(n - 1) + g(n - 1));
    }
}

/// A sum is scaled value by value.
pub proof fn total_times(n: int, x: real, f: spec_fn(int) -> real, h: spec_fn(int) -> real)
    requires
        forall|i: int| 0 <= i < n ==> #[trigger] h(i) == x * f(i),
    ensures
        total(n, h) == x * total(n, f),
    decreases n,
{
    if n > 0 {
        total_times(n - 1, x, f, h);
        let (a, b) = (total(n - 1, f), f(n - 1));
        assert(h(n - 1) == x * b);
        assert(x * (a + b) == x * a + x * b) by (nonlinear_arith);
    } else {
        assert(x * 0real == 0real);
    }
}

/// A sum of nothing but zeros is zero.
pub proof fn total_zero(n: int, f: spec_fn(int) -> real)
    requires
        forall|i: int| 0 <= i < n ==> #[trigger] f(i) == 0real,
    ensures
        total(n, f) == 0real,
    decreases n,
{
    if n > 0 {
        total_zero(n - 1, f);
        assert(f(n - 1) == 0real);
    }
}

/// A sum of which one value alone is not zero is that value.
pub proof fn total_single(n: int, c: int, f: spec_fn(int) -> real)
    requires
        0 <= c < n,
        forall|i: int| 0 <= i < n && i != c ==> #[trigger] f(i) == 0real,
    ensures
        total(n, f) == f(c),
    decreases n,
{
    if c == n - 1 {
        total_zero(n - 1, f);
    } else {
        total_single(n - 1, c, f);
        assert(f(n - 1) == 0real);
    }
}

/// The sum of row sums.
pub open spec fn total2(n: int, m: int, f: spec_fn(int, int) -> real) -> real {
    total(n, |i: int| total(m, |j: int| f(i, j)))
}

/// Rows and columns can be summed in either order.
pub proof fn total_swap(n: int, m: int, f: spec_fn(int, int) -> real)
    ensures
        total2(n, m, f) == total2(m, n, |j: int, i: int| f(i, j)),
    decreases n,
{
    let g = |j: int, i: int| f(i, j);
    let rows = |i: int| total(m, |j: int| f(i, j));
    let columns = |j: int| total(n, |i: int| g(j, i));
    if n <= 0 {
        assert forall|j: int| 0 <= j < m implies #[trigger] columns(j) == 0real by {}
        total_zero(m, columns);
    } else {
        total_swap(n - 1, m, f);
        let shorter = |j: int| total(n - 1, |i: int| g(j, i));
        let last = |j: int| f(n - 1, j);
        assert forall|j: int| 0 <= j < m implies #[trigger] columns(j) == shorter(j) + last(j) by {
            let h = |i: int| g(j, i);
            assert(total(n, h) == total(n - 1, h) + h(n - 1));
        }
        total_plus(m, shorter, last, columns);
        assert(total(n, rows) == total(n - 1, rows) + rows(n - 1));
        assert(total2(n - 1, m, f) == total(n - 1, rows));
        assert(total2(m, n - 1, g) == total(m, shorter));
    }
    assert(total2(n, m, f) == total(n, rows));
    assert(total2(m, n, g) == total(m, columns));
}

/// Sums of row sums are added value by value.
pub proof fn total2_plus(
    n: int,
    m: int,
    f: spec_fn(int, int) -> real,
    g: spec_fn(int, int) -> real,
    h: spec_fn(int, int) -> real,
)
    requires
        forall|i: int, j: int| 0 <= i < n && 0 <= j < m ==> #[trigger] h(i, j) == f(i, j) + g(i, j),
    ensures
        total2(n, m, h) == total2(n, m, f) + total2(n, m, g),
{
    let (x, y, z) = (
        |i: int| total(m, |j: int| f(i, j)),
        |i: int| total(m, |j: int| g(i, j)),
        |i: int| total(m, |j: int| h(i, j)),
    );
    assert forall|i: int| 0 <= i < n implies #[trigger] z(i) == x(i) + y(i) by {
        let (p, q, r) = (|j: int| f(i, j), |j: int| g(i, j), |j: int| h(i, j));
        assert forall|j: int| 0 <= j < m implies #[trigger] r(j) == p(j) + q(j) by {
            assert(h(i, j) == f(i, j) + g(i, j));
        }
        total_plus(m, p, q, r);
    }
    total_plus(n, x, y, z);
}

/// Sums of row sums of the same values are the same.
pub proof fn total2_same(n: int, m: int, f: spec_fn(int, int) -> real, g: spec_fn(int, int) -> real)
    requires
        forall|i: int, j: int| 0 <= i < n && 0 <= j < m ==> #[trigger] f(i, j) == g(i, j),
    ensures
        total2(n, m, f) == total2(n, m, g),
{
    let (x, y) = (|i: int| total(m, |j: int| f(i, j)), |i: int| total(m, |j: int| g(i, j)));
    assert forall|i: int| 0 <= i < n implies #[trigger] x(i) == y(i) by {
        let (p, q) = (|j: int| f(i, j), |j: int| g(i, j));
        assert forall|j: int| 0 <= j < m implies #[trigger] p(j) == q(j) by {
            assert(f(i, j) == g(i, j));
        }
        total_same(m, p, q);
    }
    total_same(n, x, y);
}

// ── Vectors ──

/// The vector of six zeros.
pub open spec fn nought() -> Seq<real> {
    Seq::new(6, |t: int| 0real)
}

/// The sum of two vectors.
pub open spec fn plus(a: Seq<real>, b: Seq<real>) -> Seq<real> {
    Seq::new(6, |t: int| a[t] + b[t])
}

/// A vector `x` times as long.
pub open spec fn times(x: real, a: Seq<real>) -> Seq<real> {
    Seq::new(6, |t: int| x * a[t])
}

/// The product of a motion and a force, or of any two vectors.
pub open spec fn pair(a: Seq<real>, b: Seq<real>) -> real {
    total(6, |t: int| a[t] * b[t])
}

/// What the matrix `w` makes of a vector.
pub open spec fn image(w: spec_fn(int, int) -> real, a: Seq<real>) -> Seq<real> {
    Seq::new(6, |r: int| total(6, |c: int| w(r, c) * a[c]))
}

/// The matrix with rows and columns exchanged.
pub open spec fn flip(w: spec_fn(int, int) -> real) -> spec_fn(int, int) -> real {
    |r: int, c: int| w(c, r)
}

/// The sum of the first `n` vectors, each times its number.
pub open spec fn blend(s: Seq<Seq<real>>, u: spec_fn(int) -> real, n: int) -> Seq<real> {
    Seq::new(6, |t: int| total(n, |c: int| u(c) * s[c][t]))
}

/// The product does not depend on the order.
pub proof fn pair_turns(a: Seq<real>, b: Seq<real>)
    ensures
        pair(a, b) == pair(b, a),
{
    let f = |t: int| a[t] * b[t];
    let g = |t: int| b[t] * a[t];
    assert forall|t: int| 0 <= t < 6 implies #[trigger] f(t) == g(t) by {
        let (x, y) = (a[t], b[t]);
        assert(x * y == y * x) by (nonlinear_arith);
    }
    total_same(6, f, g);
}

/// The product with a sum is the sum of the products.
pub proof fn pair_plus(a: Seq<real>, b: Seq<real>, c: Seq<real>)
    ensures
        pair(a, plus(b, c)) == pair(a, b) + pair(a, c),
        pair(plus(b, c), a) == pair(b, a) + pair(c, a),
{
    let f = |t: int| a[t] * b[t];
    let g = |t: int| a[t] * c[t];
    let h = |t: int| a[t] * plus(b, c)[t];
    assert forall|t: int| 0 <= t < 6 implies #[trigger] h(t) == f(t) + g(t) by {
        let (x, y, z) = (a[t], b[t], c[t]);
        assert(x * (y + z) == x * y + x * z) by (nonlinear_arith);
    }
    total_plus(6, f, g, h);
    pair_turns(a, plus(b, c));
    pair_turns(a, b);
    pair_turns(a, c);
}

/// A number can be taken out of a product.
pub proof fn pair_times(a: Seq<real>, x: real, b: Seq<real>)
    ensures
        pair(a, times(x, b)) == x * pair(a, b),
        pair(times(x, b), a) == x * pair(b, a),
{
    let f = |t: int| a[t] * b[t];
    let h = |t: int| a[t] * times(x, b)[t];
    assert forall|t: int| 0 <= t < 6 implies #[trigger] h(t) == x * f(t) by {
        let (y, z) = (a[t], b[t]);
        assert(y * (x * z) == x * (y * z)) by (nonlinear_arith);
    }
    total_times(6, x, f, h);
    pair_turns(a, times(x, b));
    pair_turns(a, b);
}

/// The product with zero is zero.
pub proof fn pair_nought(a: Seq<real>)
    ensures
        pair(a, nought()) == 0real,
        pair(nought(), a) == 0real,
{
    let f = |t: int| a[t] * nought()[t];
    assert forall|t: int| 0 <= t < 6 implies #[trigger] f(t) == 0real by {
        let x = a[t];
        assert(x * 0real == 0real);
    }
    total_zero(6, f);
    pair_turns(a, nought());
}

/// A matrix makes of a sum the sum of what it makes of the parts.
pub proof fn image_plus(w: spec_fn(int, int) -> real, a: Seq<real>, b: Seq<real>)
    ensures
        image(w, plus(a, b)) == plus(image(w, a), image(w, b)),
{
    assert forall|r: int| 0 <= r < 6 implies #[trigger] image(w, plus(a, b))[r] == image(w, a)[r] + image(w, b)[r] by {
        let row = Seq::new(6, |c: int| w(r, c));
        row_is_a_product(w, r, a);
        row_is_a_product(w, r, b);
        row_is_a_product(w, r, plus(a, b));
        pair_plus(row, a, b);
    }
    assert(image(w, plus(a, b)) =~= plus(image(w, a), image(w, b)));
}

proof fn row_is_a_product(w: spec_fn(int, int) -> real, r: int, a: Seq<real>)
    requires
        0 <= r < 6,
    ensures
        image(w, a)[r] == pair(Seq::new(6, |c: int| w(r, c)), a),
{
    let row = Seq::new(6, |c: int| w(r, c));
    total_same(6, |c: int| w(r, c) * a[c], |c: int| row[c] * a[c]);
}

/// A matrix makes of a multiple the multiple of what it makes of the vector.
pub proof fn image_times(w: spec_fn(int, int) -> real, x: real, a: Seq<real>)
    ensures
        image(w, times(x, a)) == times(x, image(w, a)),
{
    assert forall|r: int| 0 <= r < 6 implies #[trigger] image(w, times(x, a))[r] == x * image(w, a)[r] by {
        let row = Seq::new(6, |c: int| w(r, c));
        row_is_a_product(w, r, a);
        row_is_a_product(w, r, times(x, a));
        pair_times(row, x, a);
    }
    assert(image(w, times(x, a)) =~= times(x, image(w, a)));
}

/// A matrix makes zero of zero.
pub proof fn image_nought(w: spec_fn(int, int) -> real)
    ensures
        image(w, nought()) == nought(),
{
    assert forall|r: int| 0 <= r < 6 implies #[trigger] image(w, nought())[r] == 0real by {
        row_is_a_product(w, r, nought());
        pair_nought(Seq::new(6, |c: int| w(r, c)));
    }
    assert(image(w, nought()) =~= nought());
}

/// A matrix on one side of a product is the flipped one on the other.
pub proof fn image_flips(w: spec_fn(int, int) -> real, a: Seq<real>, b: Seq<real>)
    ensures
        pair(a, image(w, b)) == pair(image(flip(w), a), b),
{
    let f = |r: int, c: int| a[r] * w(r, c) * b[c];
    let g = |c: int, r: int| f(r, c);
    let left = |r: int| a[r] * image(w, b)[r];
    let left_sum = |r: int| total(6, |c: int| f(r, c));
    assert forall|r: int| 0 <= r < 6 implies #[trigger] left(r) == left_sum(r) by {
        let inner = |c: int| w(r, c) * b[c];
        let outer = |c: int| f(r, c);
        assert forall|c: int| 0 <= c < 6 implies #[trigger] outer(c) == a[r] * inner(c) by {
            let (x, y, z) = (a[r], w(r, c), b[c]);
            assert(x * y * z == x * (y * z)) by (nonlinear_arith);
        }
        total_times(6, a[r], inner, outer);
    }
    total_same(6, left, left_sum);
    let right = |c: int| image(flip(w), a)[c] * b[c];
    let right_sum = |c: int| total(6, |r: int| g(c, r));
    assert forall|c: int| 0 <= c < 6 implies #[trigger] right(c) == right_sum(c) by {
        let inner = |r: int| flip(w)(c, r) * a[r];
        let outer = |r: int| g(c, r);
        assert forall|r: int| 0 <= r < 6 implies #[trigger] outer(r) == b[c] * inner(r) by {
            let (x, y, z) = (a[r], w(r, c), b[c]);
            assert(x * y * z == z * (y * x)) by (nonlinear_arith);
        }
        total_times(6, b[c], inner, outer);
        let (x, y) = (total(6, inner), b[c]);
        assert(x * y == y * x) by (nonlinear_arith);
    }
    total_same(6, right, right_sum);
    total_swap(6, 6, f);
    assert(total2(6, 6, f) == total(6, left_sum));
    assert(total2(6, 6, g) == total(6, right_sum));
}

/// A sum of vectors without any is zero, and one with a vector more is the shorter one plus that vector.
pub proof fn blend_grows(s: Seq<Seq<real>>, u: spec_fn(int) -> real, n: int)
    ensures
        n <= 0 ==> blend(s, u, n) == nought(),
        n > 0 ==> blend(s, u, n) == plus(blend(s, u, n - 1), times(u(n - 1), s[n - 1])),
{
    if n <= 0 {
        assert(blend(s, u, n) =~= nought());
    } else {
        assert forall|t: int| 0 <= t < 6 implies #[trigger] blend(s, u, n)[t] == blend(s, u, n - 1)[t] + u(n - 1)
            * s[n - 1][t] by {
            let f = |c: int| u(c) * s[c][t];
            assert(total(n, f) == total(n - 1, f) + f(n - 1));
        }
        assert(blend(s, u, n) =~= plus(blend(s, u, n - 1), times(u(n - 1), s[n - 1])));
    }
}

/// Sums of the same vectors, each times the same number, are the same.
pub proof fn blend_same(s: Seq<Seq<real>>, t: Seq<Seq<real>>, u: spec_fn(int) -> real, v: spec_fn(int) -> real, n: int)
    requires
        forall|c: int| 0 <= c < n ==> #[trigger] s[c] == t[c],
        forall|c: int| 0 <= c < n ==> #[trigger] u(c) == v(c),
    ensures
        blend(s, u, n) == blend(t, v, n),
    decreases n,
{
    blend_grows(s, u, n);
    blend_grows(t, v, n);
    if n > 0 {
        blend_same(s, t, u, v, n - 1);
        assert(s[n - 1] == t[n - 1]);
        assert(u(n - 1) == v(n - 1));
    }
}

/// The product with a sum of vectors is the sum of the products.
pub proof fn blend_pairs(s: Seq<Seq<real>>, u: spec_fn(int) -> real, n: int, w: Seq<real>)
    ensures
        pair(blend(s, u, n), w) == total(n, |c: int| u(c) * pair(s[c], w)),
    decreases n,
{
    blend_grows(s, u, n);
    let f = |c: int| u(c) * pair(s[c], w);
    if n <= 0 {
        pair_nought(w);
    } else {
        blend_pairs(s, u, n - 1, w);
        pair_plus(w, blend(s, u, n - 1), times(u(n - 1), s[n - 1]));
        pair_times(w, u(n - 1), s[n - 1]);
        assert(total(n, f) == total(n - 1, f) + f(n - 1));
    }
}

/// A matrix makes of a sum of vectors the sum of what it makes of each.
pub proof fn blend_image(w: spec_fn(int, int) -> real, s: Seq<Seq<real>>, t: Seq<Seq<real>>, u: spec_fn(int) -> real, n: int)
    requires
        forall|c: int| 0 <= c < n ==> #[trigger] t[c] == image(w, s[c]),
    ensures
        image(w, blend(s, u, n)) == blend(t, u, n),
    decreases n,
{
    blend_grows(s, u, n);
    blend_grows(t, u, n);
    if n <= 0 {
        image_nought(w);
    } else {
        blend_image(w, s, t, u, n - 1);
        image_plus(w, blend(s, u, n - 1), times(u(n - 1), s[n - 1]));
        image_times(w, u(n - 1), s[n - 1]);
        assert(t[n - 1] == image(w, s[n - 1]));
    }
}

/// Whether a matrix is the same on either side of a product.
pub open spec fn even(w: spec_fn(int, int) -> real) -> bool {
    forall|a: Seq<real>, b: Seq<real>| #[trigger] pair(a, image(w, b)) == pair(b, image(w, a))
}

/// A matrix that does not change when it is flipped is even.
pub proof fn flipped_alike_is_even(w: spec_fn(int, int) -> real)
    requires
        forall|r: int, c: int| 0 <= r < 6 && 0 <= c < 6 ==> #[trigger] w(r, c) == w(c, r),
    ensures
        even(w),
{
    assert forall|a: Seq<real>, b: Seq<real>| #[trigger] pair(a, image(w, b)) == pair(b, image(w, a)) by {
        image_flips(w, a, b);
        image_same(flip(w), w, a);
        pair_turns(image(w, a), b);
    }
}

/// Matrices with the same entries make the same of a vector.
pub proof fn image_same(w: spec_fn(int, int) -> real, z: spec_fn(int, int) -> real, a: Seq<real>)
    requires
        forall|r: int, c: int| 0 <= r < 6 && 0 <= c < 6 ==> #[trigger] w(r, c) == z(r, c),
    ensures
        image(w, a) == image(z, a),
{
    assert forall|r: int| 0 <= r < 6 implies #[trigger] image(w, a)[r] == image(z, a)[r] by {
        let f = |c: int| w(r, c) * a[c];
        let g = |c: int| z(r, c) * a[c];
        assert forall|c: int| 0 <= c < 6 implies #[trigger] f(c) == g(c) by {
            assert(w(r, c) == z(r, c));
        }
        total_same(6, f, g);
    }
    assert(image(w, a) =~= image(z, a));
}

/// If one value of a sum changes, the sum changes by as much.
pub proof fn total_change(n: int, c: int, f: spec_fn(int) -> real, g: spec_fn(int) -> real)
    requires
        0 <= c < n,
        forall|i: int| 0 <= i < n && i != c ==> #[trigger] f(i) == g(i),
    ensures
        total(n, g) == total(n, f) + g(c) - f(c),
    decreases n,
{
    if c == n - 1 {
        total_same(n - 1, f, g);
    } else {
        total_change(n - 1, c, f, g);
        assert(f(n - 1) == g(n - 1));
    }
}

/// A sum is the sum of its first values plus that of the others.
pub proof fn total_splits(n: int, m: int, f: spec_fn(int) -> real)
    requires
        0 <= n,
        0 <= m,
    ensures
        total(n + m, f) == total(n, f) + total(m, |t: int| f(n + t)),
    decreases m,
{
    let g = |t: int| f(n + t);
    if m > 0 {
        total_splits(n, m - 1, f);
        assert(total(m, g) == total(m - 1, g) + g(m - 1));
    }
}

/// The sum of a square of values that is the same flipped is the sum of its diagonal and twice what lies
/// on one side of it.
pub proof fn total_of_square(n: int, f: spec_fn(int, int) -> real)
    requires
        forall|i: int, j: int| 0 <= i < n && 0 <= j < n ==> #[trigger] f(i, j) == f(j, i),
    ensures
        total2(n, n, f) == total(n, |i: int| f(i, i) + 2real * total(i, |j: int| f(i, j))),
    decreases n,
{
    let side = |i: int| f(i, i) + 2real * total(i, |j: int| f(i, j));
    if n > 0 {
        total_of_square(n - 1, f);
        let last = |j: int| f(n - 1, j);
        let long = |i: int| total(n, |j: int| f(i, j));
        let short = |i: int| total(n - 1, |j: int| f(i, j));
        assert forall|i: int| 0 <= i < n - 1 implies #[trigger] long(i) == short(i) + last(i) by {
            let row = |j: int| f(i, j);
            assert(total(n, row) == total(n - 1, row) + row(n - 1));
            assert(f(i, n - 1) == f(n - 1, i));
        }
        total_plus(n - 1, short, last, long);
        assert(total2(n, n, f) == total(n, long));
        assert(total2(n - 1, n - 1, f) == total(n - 1, short));
        assert(long(n - 1) == total(n, last));
        assert(total(n, last) == total(n - 1, last) + f(n - 1, n - 1));
        assert(total(n, side) == total(n - 1, side) + side(n - 1));
    }
}

// ── Systems of equations ──

/// Whether `x` solves the system of `n` equations with the matrix `d` and the right-hand sides `e`.
pub open spec fn solution(n: int, d: spec_fn(int, int) -> real, x: spec_fn(int) -> real, e: spec_fn(int) -> real) -> bool {
    forall|r: int| 0 <= r < n ==> #[trigger] e(r) == total(n, |c: int| d(r, c) * x(c))
}

/// Whether the columns of `inv` solve the system for the unit vectors.
pub open spec fn inverse(n: int, d: spec_fn(int, int) -> real, inv: spec_fn(int, int) -> real) -> bool {
    forall|c: int| 0 <= c < n ==> #[trigger] inverse_column(n, d, inv, c)
}

/// Whether the `c`-th column of `inv` solves the system for the `c`-th unit vector.
pub open spec fn inverse_column(n: int, d: spec_fn(int, int) -> real, inv: spec_fn(int, int) -> real, c: int) -> bool {
    solution(n, d, column(inv, c), unit(c))
}

/// The `c`-th column of a matrix.
pub open spec fn column(w: spec_fn(int, int) -> real, c: int) -> spec_fn(int) -> real {
    |r: int| w(r, c)
}

/// The `c`-th unit vector.
pub open spec fn unit(c: int) -> spec_fn(int) -> real {
    |r: int|
        if r == c {
            1real
        } else {
            0real
        }
}

/// A solution is what the inverse, flipped, makes of the right-hand sides.
pub proof fn inverse_solves(
    n: int,
    d: spec_fn(int, int) -> real,
    inv: spec_fn(int, int) -> real,
    x: spec_fn(int) -> real,
    e: spec_fn(int) -> real,
    c: int,
)
    requires
        0 <= c < n,
        forall|r: int, c: int| 0 <= r < n && 0 <= c < n ==> #[trigger] d(r, c) == d(c, r),
        inverse(n, d, inv),
        solution(n, d, x, e),
    ensures
        x(c) == total(n, |r: int| inv(r, c) * e(r)),
{
    let f = |r: int, j: int| inv(r, c) * (d(r, j) * x(j));
    let left = |r: int| inv(r, c) * e(r);
    let left_sum = |r: int| total(n, |j: int| f(r, j));
    assert forall|r: int| 0 <= r < n implies #[trigger] left(r) == left_sum(r) by {
        assert(e(r) == total(n, |j: int| d(r, j) * x(j)));
        total_times(n, inv(r, c), |j: int| d(r, j) * x(j), |j: int| f(r, j));
    }
    total_same(n, left, left_sum);
    total_swap(n, n, f);
    let g = |j: int, r: int| f(r, j);
    let right = |j: int| total(n, |r: int| g(j, r));
    assert(inverse_column(n, d, inv, c));
    assert forall|j: int| 0 <= j < n implies #[trigger] right(j) == x(j) * unit(c)(j) by {
        let p = |r: int| d(j, r) * inv(r, c);
        let o = |r: int| g(j, r);
        assert forall|r: int| 0 <= r < n implies #[trigger] o(r) == x(j) * p(r) by {
            assert(d(r, j) == d(j, r));
            let (y, z, a) = (inv(r, c), d(r, j), x(j));
            assert(y * (z * a) == a * (z * y)) by (nonlinear_arith);
        }
        total_times(n, x(j), p, o);
        assert(unit(c)(j) == total(n, |r: int| d(j, r) * column(inv, c)(r)));
        total_same(n, p, |r: int| d(j, r) * column(inv, c)(r));
    }
    assert forall|j: int| 0 <= j < n && j != c implies #[trigger] right(j) == 0real by {
        let a = x(j);
        assert(right(j) == x(j) * unit(c)(j));
        assert(a * 0real == 0real);
    }
    total_single(n, c, right);
    assert(right(c) == x(c) * unit(c)(c));
    assert(total2(n, n, f) == total(n, left_sum));
    assert(total2(n, n, g) == total(n, right));
}

/// The inverse of a matrix that is the same flipped is the same flipped.
pub proof fn inverse_is_even(n: int, d: spec_fn(int, int) -> real, inv: spec_fn(int, int) -> real, j: int, c: int)
    requires
        0 <= c < n,
        0 <= j < n,
        forall|r: int, c: int| 0 <= r < n && 0 <= c < n ==> #[trigger] d(r, c) == d(c, r),
        inverse(n, d, inv),
    ensures
        inv(c, j) == inv(j, c),
{
    assert(inverse_column(n, d, inv, j));
    inverse_solves(n, d, inv, column(inv, j), unit(j), c);
    let f = |r: int| inv(r, c) * unit(j)(r);
    assert forall|r: int| 0 <= r < n && r != j implies #[trigger] f(r) == 0real by {
        let a = inv(r, c);
        assert(a * 0real == 0real);
    }
    total_single(n, j, f);
}

/// What is left of the solution for `e` once the right-hand sides are lessened by `g`.
pub proof fn solution_lessened(
    n: int,
    d: spec_fn(int, int) -> real,
    inv: spec_fn(int, int) -> real,
    e: spec_fn(int) -> real,
    g: spec_fn(int) -> real,
    x: spec_fn(int) -> real,
    y: spec_fn(int) -> real,
    c: int,
)
    requires
        0 <= c < n,
        forall|r: int, c: int| 0 <= r < n && 0 <= c < n ==> #[trigger] d(r, c) == d(c, r),
        inverse(n, d, inv),
        solution(n, d, y, e),
        solution(n, d, x, |r: int| e(r) - g(r)),
    ensures
        x(c) + total(n, |j: int| inv(c, j) * g(j)) == y(c),
{
    let h = |r: int| e(r) - g(r);
    inverse_solves(n, d, inv, x, h, c);
    inverse_solves(n, d, inv, y, e, c);
    let (p, o, q) = (|r: int| inv(r, c) * h(r), |r: int| inv(r, c) * g(r), |r: int| inv(r, c) * e(r));
    assert forall|r: int| 0 <= r < n implies #[trigger] q(r) == p(r) + o(r) by {
        let (a, b, z) = (inv(r, c), e(r), g(r));
        assert(a * b == a * (b - z) + a * z) by (nonlinear_arith);
    }
    total_plus(n, p, o, q);
    let s = |j: int| inv(c, j) * g(j);
    assert forall|j: int| 0 <= j < n implies #[trigger] o(j) == s(j) by {
        inverse_is_even(n, d, inv, j, c);
    }
    total_same(n, o, s);
}

/// A sum of sums of vectors is a sum of the vectors, with the numbers added up.
pub proof fn blend_of_blends(
    u: Seq<Seq<real>>,
    w: Seq<Seq<real>>,
    inv: spec_fn(int, int) -> real,
    x: spec_fn(int) -> real,
    n: int,
    m: int,
)
    requires
        forall|c: int| 0 <= c < m ==> #[trigger] w[c] == blend(u, column(inv, c), n),
    ensures
        blend(w, x, m) == blend(u, |j: int| total(m, |c: int| inv(j, c) * x(c)), n),
{
    let y = |j: int| total(m, |c: int| inv(j, c) * x(c));
    assert forall|t: int| 0 <= t < 6 implies #[trigger] blend(w, x, m)[t] == blend(u, y, n)[t] by {
        let f = |c: int, j: int| x(c) * (inv(j, c) * u[j][t]);
        let left = |c: int| x(c) * w[c][t];
        let left_sum = |c: int| total(n, |j: int| f(c, j));
        assert forall|c: int| 0 <= c < m implies #[trigger] left(c) == left_sum(c) by {
            assert(w[c] == blend(u, column(inv, c), n));
            let p = |j: int| column(inv, c)(j) * u[j][t];
            let o = |j: int| f(c, j);
            assert(w[c][t] == total(n, p));
            total_times(n, x(c), p, o);
        }
        total_same(m, left, left_sum);
        total_swap(m, n, f);
        let g = |j: int, c: int| f(c, j);
        let right = |j: int| y(j) * u[j][t];
        let right_sum = |j: int| total(m, |c: int| g(j, c));
        assert forall|j: int| 0 <= j < n implies #[trigger] right(j) == right_sum(j) by {
            let p = |c: int| inv(j, c) * x(c);
            let o = |c: int| g(j, c);
            assert forall|c: int| 0 <= c < m implies #[trigger] o(c) == u[j][t] * p(c) by {
                let (a, b, z) = (x(c), inv(j, c), u[j][t]);
                assert(a * (b * z) == z * (b * a)) by (nonlinear_arith);
            }
            total_times(m, u[j][t], p, o);
            let (a, z) = (total(m, p), u[j][t]);
            assert(a * z == z * a) by (nonlinear_arith);
        }
        total_same(n, right, right_sum);
        assert(total2(m, n, f) == total(m, left_sum));
        assert(total2(n, m, g) == total(n, right_sum));
    }
    assert(blend(w, x, m) =~= blend(u, y, n));
}

/// Sums of vectors are added number by number.
pub proof fn blend_plus(
    s: Seq<Seq<real>>,
    u: spec_fn(int) -> real,
    v: spec_fn(int) -> real,
    w: spec_fn(int) -> real,
    n: int,
)
    requires
        forall|c: int| 0 <= c < n ==> #[trigger] w(c) == u(c) + v(c),
    ensures
        blend(s, w, n) == plus(blend(s, u, n), blend(s, v, n)),
{
    assert forall|t: int| 0 <= t < 6 implies #[trigger] blend(s, w, n)[t] == blend(s, u, n)[t] + blend(s, v, n)[t] by {
        let (f, g, h) = (|c: int| u(c) * s[c][t], |c: int| v(c) * s[c][t], |c: int| w(c) * s[c][t]);
        assert forall|c: int| 0 <= c < n implies #[trigger] h(c) == f(c) + g(c) by {
            assert(w(c) == u(c) + v(c));
            let (a, b, z) = (u(c), v(c), s[c][t]);
            assert((a + b) * z == a * z + b * z) by (nonlinear_arith);
        }
        total_plus(n, f, g, h);
    }
    assert(blend(s, w, n) =~= plus(blend(s, u, n), blend(s, v, n)));
}

} // verus!
