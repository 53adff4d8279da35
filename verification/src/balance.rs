//! Forward and inverse dynamics undo each other.

use vstd::prelude::*;
use crate::aba;
use crate::algebra;
use crate::crba;
use crate::energy;
use crate::exact;
use crate::fk;
use crate::inertial;
use crate::jacobian;
use crate::joint;
use crate::model;
use crate::release;
use crate::rigid;
use crate::rnea;
use crate::spatial;
use crate::aba::{Articulated, Body, JointSolve};
use crate::data::Data;
use crate::model::Model;
use crate::matrix::Matrix;
use crate::number::{Real, Vector3, ONE};
use crate::spatial::{Inertia, Motion, Placement, SpatialMath};

verus! {

// ── Solving for a joint ──

/// The values of the rows of a matrix.
spec fn table(d: Vec<Vec<Real>>) -> spec_fn(int, int) -> real {
    |r: int, c: int| exact::val(d@[r]@[c])
}

/// The values of the numbers of a list.
spec fn list(e: Seq<Real>) -> spec_fn(int) -> real {
    |c: int| exact::val(e[c])
}

/// What is answered solves the system.
proof fn answers_solve<K: SpatialMath>(k: &K, d: Vec<Vec<Real>>, e: Vec<Real>, x: [Real; 6])
    requires
        rigid::exact_scalars(k),
        release::answers(k, d, e, x),
    ensures
        algebra::solution(e@.len() as int, table(d), list(x@), list(e@)),
{
    let n = e@.len() as int;
    if n == 1 {
        let g = choose|g: Real| #[trigger]
            release::inverted(k, d, g) && call_ensures(K::product, (k, g, e@[0]), x[0]);
        exact::signs_are_of_values(g);
        let (a, b, y) = (exact::val(g), exact::val(d@[0]@[0]), exact::val(e@[0]));
        assert(Real::one() == Real { bits: ONE });
        let f = |c: int| table(d)(0, c) * list(x@)(c);
        assert(algebra::total(1, f) == algebra::total(0, f) + f(0));
        assert(b * (a * y) == y) by (nonlinear_arith)
            requires
                a * b == 1real,
        ;
    } else {
        assert(rigid::solves(d, e, x));
        assert forall|r: int| 0 <= r < n implies #[trigger] list(e@)(r) == algebra::total(
            n,
            |c: int| table(d)(r, c) * list(x@)(c),
        ) by {
            assert(exact::val(e@[r]) == exact::val(e@[r]));
            algebra::total_same(
                n,
                |c: int| exact::val(d@[r]@[c]) * exact::val(x[c]),
                |c: int| table(d)(r, c) * list(x@)(c),
            );
        }
    }
}

/// The products of vectors with a vector.
spec fn along(u: Seq<Seq<real>>, a: Seq<real>) -> spec_fn(int) -> real {
    |c: int| algebra::pair(u[c], a)
}

/// What a joint gives way to: the system solved for the products, times the forces.
spec fn given_way(u: Seq<Seq<real>>, inv: spec_fn(int, int) -> real, n: int, a: Seq<real>) -> Seq<real> {
    algebra::blend(u, |j: int| algebra::total(n, |c: int| inv(j, c) * along(u, a)(c)), n)
}

/// Whether the matrix `r` is `i` without what a joint gives way to.
spec fn lessened(
    i: spec_fn(int, int) -> real,
    u: Seq<Seq<real>>,
    inv: spec_fn(int, int) -> real,
    n: int,
    r: spec_fn(int, int) -> real,
) -> bool {
    forall|a: Seq<real>|
        algebra::plus(#[trigger] algebra::image(r, a), given_way(u, inv, n, a)) == algebra::image(i, a)
}

proof fn reduces_once<K: SpatialMath>(k: &K, i: Inertia, u: Seq<Motion>, d: Vec<Vec<Real>>, r: Inertia) -> (inv: spec_fn(
    int,
    int,
) -> real)
    requires
        rigid::exact_scalars(k),
        u.len() == 1,
        release::reduces(k, i, u, d, r),
    ensures
        algebra::inverse(1, table(d), inv),
        lessened(rigid::mat(i), rigid::nums(u), inv, 1, rigid::mat(r)),
{
    let g = choose|g: Real| #[trigger]
        release::inverted(k, d, g) && forall|x: int|
            0 <= x < 36 ==> release::entry_lessened(k, i, u[0], g, x, #[trigger] r.m[x]);
    exact::signs_are_of_values(g);
    assert(Real::one() == Real { bits: ONE });
    let y = exact::val(g);
    let inv = |a: int, b: int| y;
    assert(algebra::inverse_column(1, table(d), inv, 0)) by {
        let f = |c: int| table(d)(0, c) * algebra::column(inv, 0)(c);
        assert(algebra::total(1, f) == algebra::total(0, f) + f(0));
        let b = exact::val(d@[0]@[0]);
        assert(b * y == y * b) by (nonlinear_arith);
    }
    let s = rigid::nums(u);
    let w = s[0];
    assert(w == rigid::num(u[0]));
    assert forall|a: Seq<real>|
        algebra::plus(#[trigger] algebra::image(rigid::mat(r), a), given_way(s, inv, 1, a)) == algebra::image(
            rigid::mat(i),
            a,
        ) by {
        let along_a = algebra::pair(w, a);
        let share = |j: int| algebra::total(1, |c: int| inv(j, c) * along(s, a)(c));
        assert(share(0) == y * along_a) by {
            let f = |c: int| inv(0, c) * along(s, a)(c);
            assert(algebra::total(1, f) == algebra::total(0, f) + f(0));
        }
        assert forall|row: int| 0 <= row < 6 implies #[trigger] algebra::image(rigid::mat(i), a)[row]
            == algebra::image(rigid::mat(r), a)[row] + given_way(s, inv, 1, a)[row] by {
            let f = |c: int| share(c) * s[c][row];
            assert(given_way(s, inv, 1, a)[row] == algebra::total(1, f));
            assert(algebra::total(1, f) == algebra::total(0, f) + f(0));
            let products = |c: int| w[c] * a[c];
            let taken = |c: int| (y * w[row]) * products(c);
            algebra::total_times(6, y * w[row], products, taken);
            let (p, o) = (|c: int| rigid::mat(r)(row, c) * a[c], |c: int| rigid::mat(i)(row, c) * a[c]);
            assert forall|c: int| 0 <= c < 6 implies #[trigger] o(c) == p(c) + taken(c) by {
                let x = 6 * c + row;
                assert(x % 6 == row && x / 6 == c);
                assert(release::entry_lessened(k, i, u[0], g, x, r.m[x]));
                let (e, h, v, z) = (rigid::mat(i)(row, c), w[row], w[c], a[c]);
                assert(rigid::mat(r)(row, c) == e - y * h * v);
                assert(e * z == (e - y * h * v) * z + (y * h) * (v * z)) by (nonlinear_arith);
            }
            algebra::total_plus(6, p, taken, o);
            let h = w[row];
            assert((y * h) * along_a == (y * along_a) * h) by (nonlinear_arith);
        }
        assert(algebra::plus(algebra::image(rigid::mat(r), a), given_way(s, inv, 1, a)) =~= algebra::image(
            rigid::mat(i),
            a,
        ));
    }
    assert(algebra::inverse(1, table(d), inv));
    inv
}

/// The `c`-th column of the inverse that the `c`-th column of `w` is made with.
spec fn chosen<K: SpatialMath>(k: &K, u: Seq<Motion>, d: Vec<Vec<Real>>, w: Seq<Motion>, c: int) -> [Real; 6] {
    choose|x: [Real; 6]| #[trigger]
        release::inverse_column(k, d, u.len() as int, c, x) && spatial::combination(
            k,
            u,
            x@,
            0,
            u.len() as int,
            w[c],
        )
}

proof fn reduces_jointly<K: SpatialMath>(k: &K, i: Inertia, u: Seq<Motion>, d: Vec<Vec<Real>>, r: Inertia) -> (inv: spec_fn(
    int,
    int,
) -> real)
    requires
        rigid::exact_scalars(k),
        rigid::exact_vectors(k),
        u.len() != 1,
        release::reduces(k, i, u, d, r),
    ensures
        algebra::inverse(u.len() as int, table(d), inv),
        lessened(rigid::mat(i), rigid::nums(u), inv, u.len() as int, rigid::mat(r)),
{
    let n = u.len() as int;
    let (w, y) = choose|w: Seq<Motion>, y: Seq<Motion>|
        {
            &&& #[trigger] release::weighted(k, u, d, w)
            &&& #[trigger] release::all_taken(k, w, u, y)
            &&& forall|x: int|
                0 <= x < 36 ==> call_ensures(
                    K::difference,
                    (k, i.m[x], spatial::six_of(y[x / 6])[x % 6]),
                    #[trigger] r.m[x],
                )
        };
    let inv = |j: int, c: int| exact::val(chosen(k, u, d, w, c)[j]);
    let (s, t) = (rigid::nums(u), rigid::nums(w));
    assert forall|c: int| 0 <= c < n implies #[trigger] algebra::inverse_column(n, table(d), inv, c) && t[c]
        == algebra::blend(s, algebra::column(inv, c), n) by {
        assert(release::weighs(k, u, d, c, w));
        let x = chosen(k, u, d, w, c);
        let e = choose|e: Vec<Real>| release::is_unit(e@, n, c) && #[trigger] call_ensures(K::solve, (k, &d, &e), x);
        assert(rigid::solves(d, e, x));
        exact::signs_are_of_values(Real::zero());
        assert(Real::one() == Real { bits: ONE });
        assert forall|row: int| 0 <= row < n implies #[trigger] algebra::unit(c)(row) == algebra::total(
            n,
            |j: int| table(d)(row, j) * algebra::column(inv, c)(j),
        ) by {
            assert(exact::val(e@[row]) == algebra::unit(c)(row));
            algebra::total_same(
                n,
                |j: int| exact::val(d@[row]@[j]) * exact::val(x[j]),
                |j: int| table(d)(row, j) * algebra::column(inv, c)(j),
            );
        }
        rigid::combination_is_a_blend(k, u, x@, 0, n, w[c]);
        algebra::blend_same(s, s, |j: int| exact::val(x@[0 + j]), algebra::column(inv, c), n);
    }
    assert forall|a: Seq<real>|
        algebra::plus(#[trigger] algebra::image(rigid::mat(r), a), given_way(s, inv, n, a)) == algebra::image(
            rigid::mat(i),
            a,
        ) by {
        assert forall|c: int| 0 <= c < n implies #[trigger] t[c] == algebra::blend(s, algebra::column(inv, c), n) by {
            assert(algebra::inverse_column(n, table(d), inv, c));
        }
        algebra::blend_of_blends(s, t, inv, along(s, a), n, n);
        assert forall|row: int| 0 <= row < 6 implies #[trigger] algebra::image(rigid::mat(i), a)[row]
            == algebra::image(rigid::mat(r), a)[row] + given_way(s, inv, n, a)[row] by {
            let f = |c: int, col: int| a[col] * (s[c][col] * t[c][row]);
            let h = |col: int, c: int| f(c, col);
            let taken = |col: int| algebra::total(n, |c: int| h(col, c));
            let (p, o) = (|c: int| rigid::mat(r)(row, c) * a[c], |c: int| rigid::mat(i)(row, c) * a[c]);
            assert forall|col: int| 0 <= col < 6 implies #[trigger] o(col) == p(col) + taken(col) by {
                let x = 6 * col + row;
                assert(x % 6 == row && x / 6 == col);
                assert(call_ensures(
                    K::difference,
                    (k, i.m[x], spatial::six_of(y[x / 6])[x % 6]),
                    r.m[x],
                ));
                assert(release::taken(k, w, u, col, y[col]));
                rigid::combination_is_a_blend(k, w, release::parts(u, col), 0, n, y[col]);
                let z = rigid::num(y[col])[row];
                let numbers = |c: int| exact::val(release::parts(u, col)[c]);
                algebra::blend_same(t, t, |c: int| exact::val(release::parts(u, col)[0 + c]), numbers, n);
                let plain = |c: int| numbers(c) * t[c][row];
                assert(algebra::blend(t, numbers, n)[row] == algebra::total(n, plain));
                let scaled = |c: int| h(col, c);
                assert forall|c: int| 0 <= c < n implies #[trigger] scaled(c) == a[col] * plain(c) by {
                    assert(s[c][col] == exact::val(release::parts(u, col)[c]));
                }
                algebra::total_times(n, a[col], plain, scaled);
                let (e, b) = (rigid::mat(i)(row, col), a[col]);
                assert(rigid::mat(r)(row, col) == e - z);
                assert(e * b == (e - z) * b + b * z) by (nonlinear_arith);
            }
            algebra::total_plus(6, p, taken, o);
            algebra::total_swap(n, 6, f);
            assert(algebra::total2(6, n, h) == algebra::total(6, taken));
            let columns = |c: int| algebra::total(6, |col: int| f(c, col));
            let weighed = |c: int| along(s, a)(c) * t[c][row];
            assert forall|c: int| 0 <= c < n implies #[trigger] columns(c) == weighed(c) by {
                let products = |col: int| s[c][col] * a[col];
                let scaled = |col: int| f(c, col);
                assert forall|col: int| 0 <= col < 6 implies #[trigger] scaled(col) == t[c][row] * products(col) by {
                    let (b, v, z) = (a[col], s[c][col], t[c][row]);
                    assert(b * (v * z) == z * (v * b)) by (nonlinear_arith);
                }
                algebra::total_times(6, t[c][row], products, scaled);
                let (b, z) = (along(s, a)(c), t[c][row]);
                assert(b * z == z * b) by (nonlinear_arith);
            }
            algebra::total_same(n, columns, weighed);
            assert(algebra::total2(n, 6, f) == algebra::total(n, columns));
            assert(algebra::blend(t, along(s, a), n)[row] == algebra::total(n, weighed));
        }
        assert(algebra::plus(algebra::image(rigid::mat(r), a), given_way(s, inv, n, a)) =~= algebra::image(
            rigid::mat(i),
            a,
        ));
    }
    inv
}

proof fn reducing_is_exact<K: SpatialMath>(k: &K, i: Inertia, u: Seq<Motion>, d: Vec<Vec<Real>>, r: Inertia) -> (inv: spec_fn(
    int,
    int,
) -> real)
    requires
        rigid::exact_scalars(k),
        rigid::exact_vectors(k),
        release::reduces(k, i, u, d, r),
    ensures
        algebra::inverse(u.len() as int, table(d), inv),
        lessened(rigid::mat(i), rigid::nums(u), inv, u.len() as int, rigid::mat(r)),
{
    if u.len() == 1 {
        reduces_once(k, i, u, d, r)
    } else {
        reduces_jointly(k, i, u, d, r)
    }
}

/// An even matrix is even without what a joint gives way to.
proof fn even_lessened(
    i: spec_fn(int, int) -> real,
    u: Seq<Seq<real>>,
    d: spec_fn(int, int) -> real,
    inv: spec_fn(int, int) -> real,
    n: int,
    r: spec_fn(int, int) -> real,
)
    requires
        algebra::even(i),
        forall|r: int, c: int| 0 <= r < n && 0 <= c < n ==> #[trigger] d(r, c) == d(c, r),
        algebra::inverse(n, d, inv),
        lessened(i, u, inv, n, r),
    ensures
        algebra::even(r),
{
    assert forall|a: Seq<real>, b: Seq<real>| #[trigger]
        algebra::pair(a, algebra::image(r, b)) == algebra::pair(b, algebra::image(r, a)) by {
        algebra::pair_plus(a, algebra::image(r, b), given_way(u, inv, n, b));
        algebra::pair_plus(b, algebra::image(r, a), given_way(u, inv, n, a));
        assert(algebra::plus(algebra::image(r, b), given_way(u, inv, n, b)) == algebra::image(i, b));
        assert(algebra::plus(algebra::image(r, a), given_way(u, inv, n, a)) == algebra::image(i, a));
        assert(algebra::pair(a, algebra::image(i, b)) == algebra::pair(b, algebra::image(i, a)));
        given_way_pairs(u, inv, n, a, b);
        given_way_pairs(u, inv, n, b, a);
        let f = |j: int, c: int| along(u, a)(j) * (inv(j, c) * along(u, b)(c));
        let g = |j: int, c: int| along(u, b)(j) * (inv(j, c) * along(u, a)(c));
        let h = |c: int, j: int| f(j, c);
        algebra::total_swap(n, n, f);
        let (p, o) = (|c: int| algebra::total(n, |j: int| h(c, j)), |c: int| algebra::total(n, |j: int| g(c, j)));
        assert forall|c: int| 0 <= c < n implies #[trigger] p(c) == o(c) by {
            let (x, y) = (|j: int| h(c, j), |j: int| g(c, j));
            assert forall|j: int| 0 <= j < n implies #[trigger] x(j) == y(j) by {
                algebra::inverse_is_even(n, d, inv, j, c);
                let (s, t, z) = (along(u, a)(j), inv(j, c), along(u, b)(c));
                assert(s * (t * z) == z * (t * s)) by (nonlinear_arith);
            }
            algebra::total_same(n, x, y);
        }
        algebra::total_same(n, p, o);
        assert(algebra::total2(n, n, h) == algebra::total(n, p));
        assert(algebra::total2(n, n, g) == algebra::total(n, o));
        pairs_are_totals(u, inv, n, a, b);
        pairs_are_totals(u, inv, n, b, a);
    }
}

spec fn pairing(u: Seq<Seq<real>>, inv: spec_fn(int, int) -> real, a: Seq<real>, b: Seq<real>) -> spec_fn(int, int) -> real {
    |j: int, c: int| along(u, a)(j) * (inv(j, c) * along(u, b)(c))
}

proof fn given_way_pairs(u: Seq<Seq<real>>, inv: spec_fn(int, int) -> real, n: int, a: Seq<real>, b: Seq<real>)
    ensures
        algebra::pair(a, given_way(u, inv, n, b)) == algebra::total2(n, n, pairing(u, inv, a, b)),
{
    let share = |j: int| algebra::total(n, |c: int| inv(j, c) * along(u, b)(c));
    algebra::blend_pairs(u, share, n, a);
    algebra::pair_turns(a, given_way(u, inv, n, b));
    let (p, o) = (
        |j: int| share(j) * algebra::pair(u[j], a),
        |j: int| algebra::total(n, |c: int| pairing(u, inv, a, b)(j, c)),
    );
    assert forall|j: int| 0 <= j < n implies #[trigger] p(j) == o(j) by {
        let (x, y) = (|c: int| inv(j, c) * along(u, b)(c), |c: int| pairing(u, inv, a, b)(j, c));
        algebra::total_times(n, along(u, a)(j), x, y);
        let (s, t) = (share(j), along(u, a)(j));
        assert(s * t == t * s) by (nonlinear_arith);
    }
    algebra::total_same(n, p, o);
}

proof fn pairs_are_totals(u: Seq<Seq<real>>, inv: spec_fn(int, int) -> real, n: int, a: Seq<real>, b: Seq<real>)
    ensures
        algebra::total2(n, n, pairing(u, inv, a, b)) == algebra::total2(
            n,
            n,
            |j: int, c: int| along(u, a)(j) * (inv(j, c) * along(u, b)(c)),
        ),
{
    assert(pairing(u, inv, a, b) =~= |j: int, c: int| along(u, a)(j) * (inv(j, c) * along(u, b)(c)));
}

// ── One joint ──

/// The force that the articulated body `a` takes for the acceleration `acc`.
spec fn takes(a: Articulated, acc: Seq<real>) -> Seq<real> {
    algebra::plus(algebra::image(rigid::mat(a.inertia), acc), rigid::num(a.force))
}

/// What is needed to solve for a joint, in values: the forces for its directions, the inertia along them,
/// which is even, and the torques that are left.
proof fn solvable_in_values<K: SpatialMath>(k: &K, m: Model, tau: Seq<Real>, i: int, a: Articulated, s: JointSolve)
    requires
        rigid::exact_arithmetic(k),
        algebra::even(rigid::mat(a.inertia)),
        aba::solvable(k, m, tau, i, a, s),
    ensures
        forall|c: int|
            0 <= c < m.kind(i).nv() ==> #[trigger] rigid::nums(s.u@)[c] == algebra::image(
                rigid::mat(a.inertia),
                rigid::nums(m.kind(i).subspace())[c],
            ),
        forall|r: int, c: int|
            0 <= r < m.kind(i).nv() && 0 <= c < m.kind(i).nv() ==> #[trigger] table(s.d)(r, c) == algebra::pair(
                rigid::nums(m.kind(i).subspace())[r],
                rigid::nums(s.u@)[c],
            ),
        forall|r: int, c: int|
            0 <= r < m.kind(i).nv() && 0 <= c < m.kind(i).nv() ==> #[trigger] table(s.d)(r, c) == table(s.d)(c, r),
        forall|c: int|
            0 <= c < m.kind(i).nv() ==> #[trigger] list(s.e@)(c) == exact::val(tau[m.v_idx@[i] + c])
                - algebra::pair(rigid::nums(m.kind(i).subspace())[c], rigid::num(a.force)),
{
    let n = m.kind(i).nv() as int;
    let dirs = m.kind(i).subspace();
    joint::subspace_has_nv_columns(m.kind(i));
    let (t, u) = (rigid::nums(dirs), rigid::nums(s.u@));
    assert forall|c: int| 0 <= c < n implies #[trigger] u[c] == algebra::image(rigid::mat(a.inertia), t[c]) by {
        assert(call_ensures(K::inertia_times, (k, a.inertia, dirs[c]), s.u@[c]));
    }
    assert forall|r: int, c: int| 0 <= r < n && 0 <= c < n implies #[trigger] table(s.d)(r, c) == algebra::pair(
        t[r],
        u[c],
    ) by {
        assert(call_ensures(K::dot, (k, dirs[r], s.u@[c]), s.d@[r]@[c]));
    }
    assert forall|r: int, c: int| 0 <= r < n && 0 <= c < n implies #[trigger] table(s.d)(r, c) == table(s.d)(c, r) by {
        assert(table(s.d)(c, r) == algebra::pair(t[c], u[r]));
        assert(u[c] == algebra::image(rigid::mat(a.inertia), t[c]));
        assert(u[r] == algebra::image(rigid::mat(a.inertia), t[r]));
        assert(algebra::pair(t[r], algebra::image(rigid::mat(a.inertia), t[c])) == algebra::pair(
            t[c],
            algebra::image(rigid::mat(a.inertia), t[r]),
        ));
    }
    assert forall|c: int| 0 <= c < n implies #[trigger] list(s.e@)(c) == exact::val(tau[m.v_idx@[i] + c])
        - algebra::pair(t[c], rigid::num(a.force)) by {
        assert(aba::left_over(k, tau[m.v_idx@[i] + c], dirs[c], a.force, s.e@[c]));
    }
}

/// The answer for a joint, in values: it solves for what the acceleration `a` leaves of the torques.
proof fn solved_in_values<K: SpatialMath>(k: &K, m: Model, s: JointSolve, i: int, a: Motion, qdd: Seq<Real>)
    requires
        rigid::exact_arithmetic(k),
        s.square(m.kind(i).nv() as int),
        aba::solved(k, m, s, i, a, qdd),
    ensures
        algebra::solution(
            m.kind(i).nv() as int,
            table(s.d),
            |c: int| exact::val(qdd[m.v_idx@[i] + c]),
            |c: int| list(s.e@)(c) - along(rigid::nums(s.u@), rigid::num(a))(c),
        ),
{
    let n = m.kind(i).nv() as int;
    let (rhs, x) = choose|rhs: Vec<Real>, x: [Real; 6]|
        {
            &&& #[trigger] aba::remaining(k, s, a, rhs@)
            &&& #[trigger] release::answers(k, s.d, rhs, x)
            &&& forall|c: int| 0 <= c < m.kind(i).nv() ==> qdd[m.v_idx@[i] + c] == #[trigger] x[c]
        };
    answers_solve(k, s.d, rhs, x);
    let (answer, left) = (
        |c: int| exact::val(qdd[m.v_idx@[i] + c]),
        |c: int| list(s.e@)(c) - along(rigid::nums(s.u@), rigid::num(a))(c),
    );
    assert forall|r: int| 0 <= r < n implies #[trigger] left(r) == algebra::total(
        n,
        |c: int| table(s.d)(r, c) * answer(c),
    ) by {
        assert(aba::left_over(k, s.e@[r], s.u@[r], a, rhs@[r]));
        assert(list(rhs@)(r) == algebra::total(n, |c: int| table(s.d)(r, c) * list(x@)(c)));
        let (p, o) = (|c: int| table(s.d)(r, c) * list(x@)(c), |c: int| table(s.d)(r, c) * answer(c));
        assert forall|c: int| 0 <= c < n implies #[trigger] p(c) == o(c) by {
            assert(qdd[m.v_idx@[i] + c] == x[c]);
        }
        algebra::total_same(n, p, o);
    }
}

/// The bias force in front of a joint, in values.
proof fn pushing_is_exact<K: SpatialMath>(
    k: &K,
    p: Motion,
    i: Inertia,
    c: Motion,
    u: Seq<Motion>,
    d: Vec<Vec<Real>>,
    e: Vec<Real>,
    r: Motion,
) -> (y: spec_fn(int) -> real)
    requires
        rigid::exact_arithmetic(k),
        e@.len() == u.len(),
        release::pushes(k, p, i, c, u, d, e, r),
    ensures
        algebra::solution(u.len() as int, table(d), y, list(e@)),
        rigid::num(r) == algebra::plus(
            algebra::plus(rigid::num(p), algebra::image(rigid::mat(i), rigid::num(c))),
            algebra::blend(rigid::nums(u), y, u.len() as int),
        ),
{
    let n = u.len() as int;
    let (h, f, x) = choose|h: Motion, f: Motion, x: [Real; 6]|
        {
            &&& #[trigger] call_ensures(K::inertia_times, (k, i, c), h)
            &&& #[trigger] call_ensures(K::motion_sum, (k, p, h), f)
            &&& #[trigger] release::answers(k, d, e, x)
            &&& if u.len() == 1 {
                call_ensures(K::motion_add_scaled, (k, f, u[0], x[0]), r)
            } else {
                exists|g: Motion| #[trigger]
                    spatial::combination(k, u, x@, 0, u.len() as int, g) && call_ensures(
                        K::motion_sum,
                        (k, f, g),
                        r,
                    )
            }
        };
    answers_solve(k, d, e, x);
    let s = rigid::nums(u);
    let y = list(x@);
    if n == 1 {
        algebra::blend_grows(s, y, 1);
        algebra::blend_grows(s, y, 0);
        assert(s[0] == rigid::num(u[0]));
        assert(algebra::blend(s, y, 1) =~= algebra::times(y(0), s[0]));
    } else {
        let g = choose|g: Motion| #[trigger]
            spatial::combination(k, u, x@, 0, u.len() as int, g) && call_ensures(K::motion_sum, (k, f, g), r);
        rigid::combination_is_a_blend(k, u, x@, 0, n, g);
        algebra::blend_same(s, s, |j: int| exact::val(x@[0 + j]), y, n);
    }
    y
}

/// A joint that moves freely takes its torques, and in front of it the body is felt as it is behind it: the
/// articulated body behind the joint takes, for the acceleration that the answer gives it, a force that has
/// the torques along the directions of the joint, and the released one takes the same force for the
/// acceleration in front of the joint.
proof fn release_keeps_the_force<K: SpatialMath>(
    k: &K,
    m: Model,
    tau: Seq<Real>,
    qdd: Seq<Real>,
    i: int,
    a: Articulated,
    s: JointSolve,
    r: Articulated,
    drift: Motion,
    start: Motion,
    before: Seq<real>,
    after: Seq<real>,
)
    requires
        rigid::exact_arithmetic(k),
        algebra::even(rigid::mat(a.inertia)),
        m.kind(i).nv() > 0,
        aba::solvable(k, m, tau, i, a, s),
        aba::released(k, m, i, drift, a, s, r),
        rigid::num(start) == algebra::plus(before, rigid::num(drift)),
        aba::solved(k, m, s, i, start, qdd),
        after == algebra::plus(
            rigid::num(start),
            algebra::blend(
                rigid::nums(m.kind(i).subspace()),
                |c: int| exact::val(qdd[m.v_idx@[i] + c]),
                m.kind(i).nv() as int,
            ),
        ),
    ensures
        algebra::even(rigid::mat(r.inertia)),
        takes(r, before) == takes(a, after),
        forall|c: int|
            0 <= c < m.kind(i).nv() ==> algebra::pair(
                #[trigger] rigid::nums(m.kind(i).subspace())[c],
                takes(a, after),
            ) == exact::val(tau[m.v_idx@[i] + c]),
{
    let n = m.kind(i).nv() as int;
    let (t, u) = (rigid::nums(m.kind(i).subspace()), rigid::nums(s.u@));
    let w = rigid::mat(a.inertia);
    let z = rigid::mat(r.inertia);
    let d = table(s.d);
    let e = list(s.e@);
    let x = |c: int| exact::val(qdd[m.v_idx@[i] + c]);
    let ac = rigid::num(start);
    let g = along(u, ac);
    let p = rigid::num(a.force);
    joint::subspace_has_nv_columns(m.kind(i));
    solvable_in_values(k, m, tau, i, a, s);
    solved_in_values(k, m, s, i, start, qdd);
    let inv = reducing_is_exact(k, a.inertia, s.u@, s.d, r.inertia);
    let y = pushing_is_exact(k, a.force, r.inertia, drift, s.u@, s.d, s.e, r.force);
    even_lessened(w, u, d, inv, n, z);
    // Behind the joint.
    algebra::image_plus(w, ac, algebra::blend(t, x, n));
    algebra::blend_image(w, t, u, x, n);
    let behind = algebra::plus(algebra::plus(algebra::image(w, ac), algebra::blend(u, x, n)), p);
    assert(takes(a, after) == behind);
    // In front of it.
    let share = |j: int| algebra::total(n, |c: int| inv(j, c) * g(c));
    assert forall|c: int| 0 <= c < n implies #[trigger] y(c) == x(c) + share(c) by {
        algebra::solution_lessened(n, d, inv, e, g, x, y, c);
    }
    algebra::blend_plus(u, x, share, y, n);
    assert(given_way(u, inv, n, ac) == algebra::blend(u, share, n));
    algebra::image_plus(z, before, rigid::num(drift));
    assert(algebra::plus(algebra::image(z, ac), given_way(u, inv, n, ac)) == algebra::image(w, ac));
    assert(takes(r, before) =~= behind) by {
        assert forall|q: int| 0 <= q < 6 implies #[trigger] takes(r, before)[q] == behind[q] by {
            let front = algebra::image(z, before)[q] + (p[q] + algebra::image(z, rigid::num(drift))[q]
                + algebra::blend(u, y, n)[q]);
            assert(takes(r, before)[q] == front);
            assert(algebra::image(z, ac)[q] == algebra::image(z, before)[q] + algebra::image(z, rigid::num(drift))[q]);
            assert(algebra::image(w, ac)[q] == algebra::image(z, ac)[q] + algebra::blend(u, share, n)[q]);
            assert(algebra::blend(u, y, n)[q] == algebra::blend(u, x, n)[q] + algebra::blend(u, share, n)[q]);
        }
    }
    // The torques.
    assert forall|c: int| 0 <= c < n implies algebra::pair(#[trigger] t[c], takes(a, after)) == exact::val(
        tau[m.v_idx@[i] + c],
    ) by {
        algebra::pair_plus(t[c], algebra::plus(algebra::image(w, ac), algebra::blend(u, x, n)), p);
        algebra::pair_plus(t[c], algebra::image(w, ac), algebra::blend(u, x, n));
        assert(algebra::pair(t[c], algebra::image(w, ac)) == algebra::pair(ac, algebra::image(w, t[c])));
        assert(u[c] == algebra::image(w, t[c]));
        algebra::pair_turns(ac, u[c]);
        algebra::pair_turns(t[c], algebra::blend(u, x, n));
        algebra::blend_pairs(u, x, n, t[c]);
        let left = |c: int| e(c) - g(c);
        assert(left(c) == algebra::total(n, |j: int| d(c, j) * x(j)));
        let (f, h) = (|j: int| d(c, j) * x(j), |j: int| x(j) * algebra::pair(u[j], t[c]));
        assert forall|j: int| 0 <= j < n implies #[trigger] f(j) == h(j) by {
            assert(d(c, j) == algebra::pair(t[c], u[j]));
            algebra::pair_turns(t[c], u[j]);
            let (v, o) = (d(c, j), x(j));
            assert(v * o == o * v) by (nonlinear_arith);
        }
        algebra::total_same(n, f, h);
        assert(e(c) == exact::val(tau[m.v_idx@[i] + c]) - algebra::pair(t[c], p));
    }
}

/// Behind a joint that does not move, the same force is felt as in front of it.
proof fn fixed_keeps_the_force<K: SpatialMath>(
    k: &K,
    m: Model,
    i: int,
    a: Articulated,
    s: JointSolve,
    r: Articulated,
    drift: Motion,
    before: Seq<real>,
    after: Seq<real>,
)
    requires
        rigid::exact_arithmetic(k),
        m.kind(i).nv() == 0,
        aba::released(k, m, i, drift, a, s, r),
        after == algebra::plus(before, rigid::num(drift)),
    ensures
        r.inertia == a.inertia,
        takes(r, before) == takes(a, after),
{
    algebra::image_plus(rigid::mat(a.inertia), before, rigid::num(drift));
    assert(takes(r, before) =~= takes(a, after));
}

// ── All joints ──

/// The velocity that joint `i` adds, in values.
spec fn own_velocity(m: Model, v: Seq<Real>, i: int) -> Seq<real> {
    algebra::blend(
        rigid::nums(m.kind(i).subspace()),
        |c: int| exact::val(v[m.v_idx@[i] + c]),
        m.kind(i).nv() as int,
    )
}

proof fn moving_is_exact<K: SpatialMath>(
    k: &K,
    m: Model,
    v: Seq<Real>,
    x: Placement,
    above: Motion,
    i: int,
    own: Motion,
    r: Motion,
)
    requires
        rigid::exact_arithmetic(k),
        fk::moving(k, m, v, x, above, i, own, r),
    ensures
        rigid::num(own) == own_velocity(m, v, i),
        rigid::num(r) == algebra::plus(
            algebra::image(rigid::frame(x), rigid::num(above)),
            own_velocity(m, v, i),
        ),
{
    joint::subspace_has_nv_columns(m.kind(i));
    rigid::combination_is_a_blend(k, m.kind(i).subspace(), v, m.v_idx@[i] as int, m.kind(i).nv() as int, own);
}

/// Both passes place the bodies alike, and give them the same velocities.
proof fn velocities_agree<K: SpatialMath>(
    k: &K,
    m: Model,
    q: Seq<Real>,
    v: Seq<Real>,
    a: Seq<Real>,
    b: Seq<Body>,
    d: Data,
    i: int,
)
    requires
        m.wf(),
        rigid::exact_arithmetic(k),
        b.len() == m.joints@.len(),
        aba::body_states(k, m, q, v, b, m.joints@.len() as int),
        d.fits(m),
        fk::all_placed(k, m, q, d),
        fk::drives_up_to(k, m, v, a, d, m.joints@.len() as int),
        0 <= i < m.joints@.len(),
    ensures
        i > 0 ==> b[i].placement == d.joint_placements@[i],
        rigid::num(b[i].velocity) == rigid::num(d.v@[i]),
    decreases i,
{
    if i > 0 {
        let p = m.parent(i);
        assert(m.joints@[i].parent < i);
        velocities_agree(k, m, q, v, a, b, d, p);
        assert(aba::body_state(k, m, q, v, i, b[p].velocity, b[i]));
        assert(fk::placed(k, m, q, d.joint_placements@, d.oMi@, i));
        rigid::relative_repeats_itself(k, m, q, i, b[i].placement, d.joint_placements@[i]);
        assert(fk::drives(k, m, v, a, d, i));
        let one = choose|own: Motion|
            {
                &&& #[trigger] fk::moving(k, m, v, b[i].placement, b[p].velocity, i, own, b[i].velocity)
                &&& call_ensures(K::motion_cross, (k, b[i].velocity, own), b[i].drift)
            };
        moving_is_exact(k, m, v, b[i].placement, b[p].velocity, i, one, b[i].velocity);
        let other = choose|own: Motion|
            {
                &&& #[trigger] fk::moving(k, m, v, d.joint_placements@[i], d.v@[p], i, own, d.v@[i])
                &&& fk::accelerating(k, m, a, d.joint_placements@[i], d.a@[p], d.v@[i], own, i, d.a@[i])
            };
        moving_is_exact(k, m, v, d.joint_placements@[i], d.v@[p], i, other, d.v@[i]);
    }
}

/// The acceleration in front of joint `i`, in values.
spec fn arriving(m: Model, d: Data, i: int) -> Seq<real> {
    algebra::image(rigid::frame(d.joint_placements@[i]), rigid::num(d.a@[m.parent(i)]))
}

/// Both passes give the bodies the same accelerations.
proof fn accelerations_agree<K: SpatialMath>(
    k: &K,
    m: Model,
    q: Seq<Real>,
    v: Seq<Real>,
    a: Seq<Real>,
    b: Seq<Body>,
    js: Seq<JointSolve>,
    acc: Seq<Motion>,
    d: Data,
    i: int,
)
    requires
        m.wf(),
        rigid::exact_arithmetic(k),
        b.len() == m.joints@.len(),
        aba::body_states(k, m, q, v, b, m.joints@.len() as int),
        aba::outward_pass(k, m, m.gravity, b, js, a, acc),
        d.fits(m),
        fk::all_placed(k, m, q, d),
        fk::drives_up_to(k, m, v, a, d, m.joints@.len() as int),
        0 <= i < m.joints@.len(),
    ensures
        rigid::num(acc[i]) == rigid::num(d.a@[i]),
        i > 0 ==> rigid::num(d.a@[i]) == algebra::plus(
            algebra::plus(arriving(m, d, i), rigid::num(b[i].drift)),
            own_velocity(m, a, i),
        ),
    decreases i,
{
    if i > 0 {
        let p = m.parent(i);
        assert(m.joints@[i].parent < i);
        joint::subspace_has_nv_columns(m.kind(i));
        accelerations_agree(k, m, q, v, a, b, js, acc, d, p);
        velocities_agree(k, m, q, v, a, b, d, i);
        assert(aba::body_state(k, m, q, v, i, b[p].velocity, b[i]));
        let one = choose|own: Motion|
            {
                &&& #[trigger] fk::moving(k, m, v, b[i].placement, b[p].velocity, i, own, b[i].velocity)
                &&& call_ensures(K::motion_cross, (k, b[i].velocity, own), b[i].drift)
            };
        moving_is_exact(k, m, v, b[i].placement, b[p].velocity, i, one, b[i].velocity);
        assert(fk::drives(k, m, v, a, d, i));
        let x = d.joint_placements@[i];
        let other = choose|own: Motion|
            {
                &&& #[trigger] fk::moving(k, m, v, x, d.v@[p], i, own, d.v@[i])
                &&& fk::accelerating(k, m, a, x, d.a@[p], d.v@[i], own, i, d.a@[i])
            };
        moving_is_exact(k, m, v, x, d.v@[p], i, other, d.v@[i]);
        let (added, sum, turn) = choose|added: Motion, sum: Motion, turn: Motion|
            {
                &&& spatial::combination(
                    k,
                    m.kind(i).subspace(),
                    a,
                    m.v_idx@[i] as int,
                    m.kind(i).nv() as int,
                    added,
                )
                &&& #[trigger] fk::carried(k, x, d.a@[p], added, sum)
                &&& #[trigger] call_ensures(K::motion_cross, (k, d.v@[i], other), turn)
                &&& call_ensures(K::motion_sum, (k, sum, turn), d.a@[i])
            };
        rigid::combination_is_a_blend(
            k,
            m.kind(i).subspace(),
            a,
            m.v_idx@[i] as int,
            m.kind(i).nv() as int,
            added,
        );
        let behind = algebra::plus(algebra::plus(arriving(m, d, i), rigid::num(b[i].drift)), own_velocity(m, a, i));
        assert(rigid::num(d.a@[i]) =~= behind);
        assert(aba::outward_step(k, m, b[i], js[i], i, acc[p], a, acc[i]));
        let (t, start) = step_start(k, m, b[i], js[i], i, acc[p], a, acc[i]);
        if m.kind(i).nv() > 0 {
            rigid::combination_on_is_a_blend(
                k,
                start,
                m.kind(i).subspace(),
                a,
                m.v_idx@[i] as int,
                m.kind(i).nv() as int,
                acc[i],
            );
        } else {
            algebra::blend_grows(
                rigid::nums(m.kind(i).subspace()),
                |c: int| exact::val(a[m.v_idx@[i] + c]),
                0,
            );
            assert(rigid::num(acc[i]) =~= behind);
        }
    }
}

proof fn step_start<K: SpatialMath>(
    k: &K,
    m: Model,
    b: Body,
    s: JointSolve,
    i: int,
    above: Motion,
    qdd: Seq<Real>,
    r: Motion,
) -> (ta: (Motion, Motion))
    requires
        aba::outward_step(k, m, b, s, i, above, qdd, r),
    ensures
        call_ensures(K::motion_to_child, (k, b.placement, above), ta.0),
        call_ensures(K::motion_sum, (k, ta.0, b.drift), ta.1),
        m.kind(i).nv() > 0 ==> aba::solved(k, m, s, i, ta.1, qdd) && aba::combination_on(
            k,
            ta.1,
            m.kind(i).subspace(),
            qdd,
            m.v_idx@[i] as int,
            m.kind(i).nv() as int,
            r,
        ),
        m.kind(i).nv() == 0 ==> r == ta.1,
{
    choose|t: Motion, a: Motion|
        {
            &&& #[trigger] call_ensures(K::motion_to_child, (k, b.placement, above), t)
            &&& #[trigger] call_ensures(K::motion_sum, (k, t, b.drift), a)
            &&& if m.kind(i).nv() > 0 {
                &&& aba::solved(k, m, s, i, a, qdd)
                &&& aba::combination_on(
                    k,
                    a,
                    m.kind(i).subspace(),
                    qdd,
                    m.v_idx@[i] as int,
                    m.kind(i).nv() as int,
                    r,
                )
            } else {
                r == a
            }
        }
}

/// Whether the articulated bodies from the first to the `i`-th take the forces `f` for the accelerations of
/// the bodies.
spec fn in_balance(d: Data, s: Seq<Articulated>, f: Seq<Motion>, i: int) -> bool {
    forall|j: int|
        1 <= j <= i ==> algebra::even(rigid::mat((#[trigger] s[j]).inertia)) && takes(s[j], rigid::num(d.a@[j]))
            == rigid::num(f[j])
}

/// The single bodies take the forces that they are given.
proof fn bodies_in_balance<K: SpatialMath>(
    k: &K,
    m: Model,
    q: Seq<Real>,
    v: Seq<Real>,
    a: Seq<Real>,
    b: Seq<Body>,
    d: Data,
    s: Seq<Articulated>,
    f: Seq<Motion>,
    j: int,
)
    requires
        m.wf(),
        rigid::exact_arithmetic(k),
        rigid::balanced(m),
        b.len() == m.joints@.len(),
        aba::body_states(k, m, q, v, b, m.joints@.len() as int),
        d.fits(m),
        fk::all_placed(k, m, q, d),
        fk::drives_up_to(k, m, v, a, d, m.joints@.len() as int),
        1 <= j < m.joints@.len(),
        s[j] == (Articulated { inertia: b[j].inertia, force: b[j].force }),
        rnea::body_force(k, m, d, j, f[j]),
    ensures
        algebra::even(rigid::mat(s[j].inertia)),
        takes(s[j], rigid::num(d.a@[j])) == rigid::num(f[j]),
{
    velocities_agree(k, m, q, v, a, b, d, j);
    assert(aba::body_state(k, m, q, v, j, b[m.parent(j)].velocity, b[j]));
    energy::bodies_are_even(k, m, j, b[j].inertia);
    let w = rigid::link(m.inertias@[j]);
    let (acc, vel) = (rigid::num(d.a@[j]), rigid::num(d.v@[j]));
    let h = choose|h: Motion| #[trigger]
        call_ensures(K::inertia_times, (k, b[j].inertia, b[j].velocity), h) && call_ensures(
            K::force_cross,
            (k, b[j].velocity, h),
            b[j].force,
        );
    let (inertia, push, momentum, turn) = choose|inertia: Inertia, push: Motion, momentum: Motion, turn: Motion|
        {
            &&& call_ensures(K::body_inertia, (k, m.inertias@[j]), inertia)
            &&& #[trigger] call_ensures(K::inertia_times, (k, inertia, d.a@[j]), push)
            &&& #[trigger] call_ensures(K::inertia_times, (k, inertia, d.v@[j]), momentum)
            &&& #[trigger] call_ensures(K::force_cross, (k, d.v@[j], momentum), turn)
            &&& call_ensures(K::motion_sum, (k, push, turn), f[j])
        };
    assert(algebra::image(rigid::mat(inertia), acc) == algebra::image(w, acc));
    assert(algebra::image(rigid::mat(inertia), vel) == algebra::image(w, vel));
    assert(algebra::image(rigid::mat(b[j].inertia), acc) == algebra::image(w, acc));
    assert(algebra::image(rigid::mat(b[j].inertia), vel) == algebra::image(w, vel));
    assert(rigid::num(turn) == rigid::num(b[j].force));
}

/// If joint `i` and all before it are in balance, they are so once joint `i` is handled, and the force on
/// body `i` has the torques along the directions of its joint.
proof fn balance_is_kept<K: SpatialMath>(
    k: &K,
    m: Model,
    q: Seq<Real>,
    v: Seq<Real>,
    tau: Seq<Real>,
    a: Seq<Real>,
    b: Seq<Body>,
    js: Seq<JointSolve>,
    acc: Seq<Motion>,
    d: Data,
    i: int,
    s: Seq<Articulated>,
    t: Seq<Articulated>,
    f: Seq<Motion>,
    g: Seq<Motion>,
)
    requires
        m.wf(),
        rigid::exact_arithmetic(k),
        b.len() == m.joints@.len(),
        aba::body_states(k, m, q, v, b, m.joints@.len() as int),
        aba::outward_pass(k, m, m.gravity, b, js, a, acc),
        d.fits(m),
        fk::all_placed(k, m, q, d),
        fk::drives_up_to(k, m, v, a, d, m.joints@.len() as int),
        1 <= i < m.joints@.len(),
        s.len() == m.joints@.len(),
        f.len() == m.joints@.len(),
        in_balance(d, s, f, i),
        aba::inward_step(k, m, tau, b, i, s, js[i], t),
        rnea::gathered(k, m, d.joint_placements@, i, f, g),
    ensures
        t.len() == s.len(),
        g.len() == f.len(),
        in_balance(d, t, g, i - 1),
        forall|c: int|
            0 <= c < m.kind(i).nv() ==> algebra::pair(
                #[trigger] rigid::nums(m.kind(i).subspace())[c],
                rigid::num(f[i]),
            ) == exact::val(tau[m.v_idx@[i] + c]),
{
    let p = m.parent(i);
    assert(m.joints@[i].parent < i);
    velocities_agree(k, m, q, v, a, b, d, i);
    accelerations_agree(k, m, q, v, a, b, js, acc, d, i);
    accelerations_agree(k, m, q, v, a, b, js, acc, d, p);
    let x = d.joint_placements@[i];
    let before = arriving(m, d, i);
    let after = rigid::num(d.a@[i]);
    let above = rigid::num(d.a@[p]);
    assert(algebra::even(rigid::mat(s[i].inertia)));
    assert(takes(s[i], after) == rigid::num(f[i]));
    assert(aba::outward_step(k, m, b[i], js[i], i, acc[p], a, acc[i]));
    let (moved, start) = step_start(k, m, b[i], js[i], i, acc[p], a, acc[i]);
    if m.kind(i).nv() > 0 {
        release_keeps_the_force(k, m, tau, a, i, s[i], js[i], t[i], b[i].drift, start, before, after);
    } else {
        algebra::blend_grows(
            rigid::nums(m.kind(i).subspace()),
            |c: int| exact::val(a[m.v_idx@[i] + c]),
            0,
        );
        assert(after =~= algebra::plus(before, rigid::num(b[i].drift)));
        fixed_keeps_the_force(k, m, i, s[i], js[i], t[i], b[i].drift, before, after);
    }
    if p > 0 {
        attaching_adds_the_force(k, x, s[p], t[i], t[p], above);
        assert(takes(s[p], above) == rigid::num(f[p]));
        assert(algebra::even(rigid::mat(s[p].inertia)));
        let h = choose|h: Motion| #[trigger]
            call_ensures(K::force_to_parent, (k, x, f[i]), h) && call_ensures(K::motion_sum, (k, f[p], h), g[p]);
        assert(rigid::num(g[p]) == algebra::plus(rigid::num(f[p]), rigid::num(h)));
        assert forall|j: int| 1 <= j <= i - 1 implies algebra::even(rigid::mat((#[trigger] t[j]).inertia)) && takes(
            t[j],
            rigid::num(d.a@[j]),
        ) == rigid::num(g[j]) by {
            if j != p {
                assert(t[j] == s[j]);
                assert(g[j] == f[j]);
            }
        }
    } else {
        assert forall|j: int| 1 <= j <= i - 1 implies algebra::even(rigid::mat((#[trigger] t[j]).inertia)) && takes(
            t[j],
            rigid::num(d.a@[j]),
        ) == rigid::num(g[j]) by {
            assert(t[j] == s[j]);
            assert(g[j] == f[j]);
        }
    }
}

/// A body with another one attached takes its own force and that of the other one, seen from it.
proof fn attaching_adds_the_force<K: SpatialMath>(
    k: &K,
    x: Placement,
    a: Articulated,
    b: Articulated,
    r: Articulated,
    acc: Seq<real>,
)
    requires
        rigid::exact_arithmetic(k),
        algebra::even(rigid::mat(a.inertia)),
        algebra::even(rigid::mat(b.inertia)),
        aba::attached(k, x, a, b, r),
    ensures
        algebra::even(rigid::mat(r.inertia)),
        takes(r, acc) == algebra::plus(
            takes(a, acc),
            algebra::image(algebra::flip(rigid::frame(x)), takes(b, algebra::image(rigid::frame(x), acc))),
        ),
{
    let (i, f) = choose|i: Inertia, f: Motion|
        {
            &&& #[trigger] call_ensures(K::inertia_to_parent, (k, x, b.inertia), i)
            &&& call_ensures(K::inertia_sum, (k, a.inertia, i), r.inertia)
            &&& #[trigger] call_ensures(K::force_to_parent, (k, x, b.force), f)
            &&& call_ensures(K::motion_sum, (k, a.force, f), r.force)
        };
    energy::even_moved(k, x, b.inertia, i);
    energy::even_sum(k, a.inertia, i, r.inertia);
    let back = algebra::flip(rigid::frame(x));
    let there = algebra::image(rigid::frame(x), acc);
    algebra::image_plus(back, algebra::image(rigid::mat(b.inertia), there), rigid::num(b.force));
    assert(algebra::image(rigid::mat(i), acc) == algebra::image(back, algebra::image(rigid::mat(b.inertia), there)));
    assert(algebra::image(rigid::mat(r.inertia), acc) == algebra::plus(
        algebra::image(rigid::mat(a.inertia), acc),
        algebra::image(rigid::mat(i), acc),
    ));
    assert(takes(r, acc) =~= algebra::plus(takes(a, acc), algebra::image(back, takes(b, there))));
}

proof fn all_in_balance<K: SpatialMath>(
    k: &K,
    m: Model,
    q: Seq<Real>,
    v: Seq<Real>,
    tau: Seq<Real>,
    a: Seq<Real>,
    b: Seq<Body>,
    js: Seq<JointSolve>,
    history: Seq<Seq<Articulated>>,
    acc: Seq<Motion>,
    d: Data,
    forces: Seq<Seq<Motion>>,
    i: int,
)
    requires
        m.wf(),
        rigid::exact_arithmetic(k),
        rigid::balanced(m),
        b.len() == m.joints@.len(),
        aba::body_states(k, m, q, v, b, m.joints@.len() as int),
        aba::inward_pass(k, m, tau, b, js, history),
        aba::outward_pass(k, m, m.gravity, b, js, a, acc),
        d.fits(m),
        fk::all_placed(k, m, q, d),
        fk::drives_up_to(k, m, v, a, d, m.joints@.len() as int),
        rnea::gathering(k, m, d, forces),
        0 <= i < m.joints@.len(),
    ensures
        history[i].len() == m.joints@.len(),
        forces[i].len() == m.joints@.len(),
        in_balance(d, history[i], forces[i], i),
    decreases m.joints@.len() - i,
{
    let n = m.joints@.len() as int;
    if i == n - 1 {
        assert forall|j: int| 1 <= j <= i implies algebra::even(rigid::mat((#[trigger] history[i][j]).inertia)) && takes(
            history[i][j],
            rigid::num(d.a@[j]),
        ) == rigid::num(forces[i][j]) by {
            assert(rnea::body_force(k, m, d, j, forces[n - 1][j]));
            bodies_in_balance(k, m, q, v, a, b, d, history[i], forces[i], j);
        }
    } else {
        all_in_balance(k, m, q, v, tau, a, b, js, history, acc, d, forces, i + 1);
        assert(aba::inward_step(k, m, tau, b, i + 1, history[i + 1], js[i + 1], history[i + 1 - 1]));
        assert(rnea::gathered(k, m, d.joint_placements@, i + 1, forces[i + 1], forces[i + 1 - 1]));
        balance_is_kept(
            k,
            m,
            q,
            v,
            tau,
            a,
            b,
            js,
            acc,
            d,
            i + 1,
            history[i + 1],
            history[i],
            forces[i + 1],
            forces[i],
        );
    }
}

/// The torques that the accelerations take which forward dynamics gives for torques are these torques,
/// whatever the kinds of the joints: every body, also one on a joint that does not move, is felt by those
/// that carry it with its inertia and with the force that its motion takes.
pub proof fn inverse_dynamics_gives_the_torques_back<K: SpatialMath>(
    k: &K,
    m: Model,
    q: Seq<Real>,
    v: Seq<Real>,
    tau: Seq<Real>,
    qdd: Seq<Real>,
    back: Seq<Real>,
)
    requires
        m.wf(),
        rigid::exact_arithmetic(k),
        rigid::balanced(m),
        aba::forward_dynamics(k, m, m.gravity, q, v, tau, qdd),
        rnea::inverse_dynamics(k, m, q, v, qdd, back),
    ensures
        back.len() == m.nv,
        forall|c: int| 0 <= c < m.nv ==> exact::val(#[trigger] back[c]) == exact::val(tau[c]),
{
    let (b, js, history, acc) = choose|
        b: Seq<Body>,
        js: Seq<JointSolve>,
        history: Seq<Seq<Articulated>>,
        acc: Seq<Motion>,
    |
        {
            &&& b.len() == m.joints@.len()
            &&& aba::body_states(k, m, q, v, b, m.joints@.len() as int)
            &&& #[trigger] aba::inward_pass(k, m, tau, b, js, history)
            &&& #[trigger] aba::outward_pass(k, m, m.gravity, b, js, qdd, acc)
        };
    let (d, forces) = choose|d: Data, forces: Seq<Seq<Motion>>|
        {
            &&& d.fits(m)
            &&& fk::all_placed(k, m, q, d)
            &&& fk::drives_up_to(k, m, v, qdd, d, m.joints@.len() as int)
            &&& #[trigger] rnea::gathering(k, m, d, forces)
            &&& rnea::torques(k, m, forces, back)
        };
    assert forall|c: int| 0 <= c < m.nv implies exact::val(#[trigger] back[c]) == exact::val(tau[c]) by {
        let i = jacobian::columns_have_owners(m, c);
        all_in_balance(k, m, q, v, tau, qdd, b, js, history, acc, d, forces, i);
        assert(aba::inward_step(k, m, tau, b, i, history[i], js[i], history[i - 1]));
        assert(rnea::gathered(k, m, d.joint_placements@, i, forces[i], forces[i - 1]));
        balance_is_kept(k, m, q, v, tau, qdd, b, js, acc, d, i, history[i], history[i - 1], forces[i], forces[i - 1]);
        joint::subspace_has_nv_columns(m.kind(i));
        let s = c - m.v_idx@[i];
        assert(rigid::nums(m.kind(i).subspace())[s] == rigid::num(crba::direction(m, i, c)));
        assert(call_ensures(K::dot, (k, crba::direction(m, i, c), forces[i][i]), back[c]));
    }
}

// ── At rest ──

/// The powers of the forces that the articulated bodies take.
spec fn powers(w: Seq<Seq<real>>, acc: Seq<Motion>, s: Seq<Articulated>) -> spec_fn(int) -> real {
    |j: int|
        if j <= 0 {
            0real
        } else {
            algebra::pair(w[j], takes(s[j], rigid::num(acc[j])))
        }
}

/// The power of the torques of joint `i`.
spec fn joint_power(m: Model, u: spec_fn(int) -> real, tau: Seq<Real>, i: int) -> real {
    algebra::total(m.kind(i).nv() as int, |c: int| u(m.v_idx@[i] + c) * exact::val(tau[m.v_idx@[i] + c]))
}

/// Whether the bodies from the first to the `i`-th have even inertias.
spec fn all_even(s: Seq<Articulated>, i: int) -> bool {
    forall|j: int| 1 <= j <= i ==> algebra::even(rigid::mat((#[trigger] s[j]).inertia))
}

/// Handling joint `i` takes from the powers that of its torques.
proof fn inward_takes_the_power<K: SpatialMath>(
    k: &K,
    m: Model,
    tau: Seq<Real>,
    qdd: Seq<Real>,
    b: Seq<Body>,
    js: JointSolve,
    acc: Seq<Motion>,
    x: Seq<Placement>,
    u: spec_fn(int) -> real,
    w: Seq<Seq<real>>,
    i: int,
    s: Seq<Articulated>,
    t: Seq<Articulated>,
)
    requires
        m.wf(),
        rigid::exact_arithmetic(k),
        energy::in_motion(m, x, u, w),
        1 <= i < m.joints@.len(),
        b[i].placement == x[i],
        s.len() == m.joints@.len(),
        all_even(s, i),
        aba::inward_step(k, m, tau, b, i, s, js, t),
        aba::outward_step(k, m, b[i], js, i, acc[m.parent(i)], qdd, acc[i]),
    ensures
        t.len() == s.len(),
        all_even(t, i - 1),
        algebra::total(i + 1, powers(w, acc, s)) == algebra::total(i, powers(w, acc, t)) + joint_power(m, u, tau, i),
{
    let p = m.parent(i);
    assert(m.joints@[i].parent < i);
    joint::subspace_has_nv_columns(m.kind(i));
    let nv = m.kind(i).nv() as int;
    let above = rigid::num(acc[p]);
    let before = algebra::image(rigid::frame(x[i]), above);
    let after = rigid::num(acc[i]);
    let dirs = rigid::nums(m.kind(i).subspace());
    assert(algebra::even(rigid::mat(s[i].inertia)));
    let (moved, start) = step_start(k, m, b[i], js, i, acc[p], qdd, acc[i]);
    let force = takes(s[i], after);
    let own = energy::added(m, u, i);
    let z = energy::inherited(m, x, w, i);
    algebra::blend_pairs(dirs, energy::rates(m, u, i), nv, force);
    let (f, g) = (powers(w, acc, s), powers(w, acc, t));
    let (y, h) = (
        |c: int| energy::rates(m, u, i)(c) * algebra::pair(dirs[c], force),
        |c: int| u(m.v_idx@[i] + c) * exact::val(tau[m.v_idx@[i] + c]),
    );
    if nv > 0 {
        rigid::combination_on_is_a_blend(
            k,
            start,
            m.kind(i).subspace(),
            qdd,
            m.v_idx@[i] as int,
            m.kind(i).nv() as int,
            acc[i],
        );
        release_keeps_the_force(k, m, tau, qdd, i, s[i], js, t[i], b[i].drift, start, before, after);
        assert forall|c: int| 0 <= c < nv implies #[trigger] y(c) == h(c) by {
            assert(algebra::pair(dirs[c], force) == exact::val(tau[m.v_idx@[i] + c]));
        }
        algebra::total_same(nv, y, h);
    } else {
        fixed_keeps_the_force(k, m, i, s[i], js, t[i], b[i].drift, before, after);
    }
    assert(algebra::pair(own, force) == joint_power(m, u, tau, i));
    assert(w[i] == algebra::plus(z, own));
    algebra::pair_plus(force, z, own);
    assert(algebra::total(i + 1, f) == algebra::total(i, f) + f(i));
    if p > 0 {
        assert(algebra::even(rigid::mat(s[p].inertia)));
        attaching_adds_the_force(k, x[i], s[p], t[i], t[p], above);
        let back = algebra::image(algebra::flip(rigid::frame(x[i])), force);
        algebra::pair_plus(w[p], takes(s[p], above), back);
        algebra::image_flips(rigid::frame(x[i]), force, w[p]);
        algebra::pair_turns(force, z);
        algebra::pair_turns(back, w[p]);
        assert(g(p) == f(p) + algebra::pair(z, force));
        assert forall|j: int| 0 <= j < i && j != p implies #[trigger] f(j) == g(j) by {
            assert(t[j] == s[j]);
        }
        algebra::total_change(i, p, f, g);
        assert forall|j: int| 1 <= j <= i - 1 implies algebra::even(rigid::mat((#[trigger] t[j]).inertia)) by {
            if j != p {
                assert(t[j] == s[j]);
                assert(algebra::even(rigid::mat(s[j].inertia)));
            }
        }
    } else {
        assert(p == 0);
        algebra::image_nought(rigid::frame(x[i]));
        assert(z == algebra::nought());
        algebra::pair_nought(force);
        assert forall|j: int| 0 <= j < i implies #[trigger] f(j) == g(j) by {
            assert(t[j] == s[j]);
        }
        algebra::total_same(i, f, g);
        assert forall|j: int| 1 <= j <= i - 1 implies algebra::even(rigid::mat((#[trigger] t[j]).inertia)) by {
            assert(t[j] == s[j]);
            assert(algebra::even(rigid::mat(s[j].inertia)));
        }
    }
}

proof fn powers_are_those_of_the_torques<K: SpatialMath>(
    k: &K,
    m: Model,
    gravity: Vector3,
    tau: Seq<Real>,
    qdd: Seq<Real>,
    b: Seq<Body>,
    js: Seq<JointSolve>,
    history: Seq<Seq<Articulated>>,
    acc: Seq<Motion>,
    x: Seq<Placement>,
    u: spec_fn(int) -> real,
    w: Seq<Seq<real>>,
    i: int,
)
    requires
        m.wf(),
        rigid::exact_arithmetic(k),
        energy::in_motion(m, x, u, w),
        b.len() == m.joints@.len(),
        forall|j: int| 0 < j < b.len() ==> (#[trigger] b[j]).placement == x[j],
        aba::inward_pass(k, m, tau, b, js, history),
        aba::outward_pass(k, m, gravity, b, js, qdd, acc),
        0 <= i < m.joints@.len(),
        history[i].len() == m.joints@.len(),
        all_even(history[i], i),
    ensures
        algebra::total(i + 1, powers(w, acc, history[i])) == algebra::total(
            i + 1,
            |j: int| if j <= 0 { 0real } else { joint_power(m, u, tau, j) },
        ),
    decreases i,
{
    let f = powers(w, acc, history[i]);
    let g = |j: int| if j <= 0 { 0real } else { joint_power(m, u, tau, j) };
    if i > 0 {
        assert(aba::inward_step(k, m, tau, b, i, history[i], js[i], history[i - 1]));
        assert(aba::outward_step(k, m, b[i], js[i], i, acc[m.parent(i)], qdd, acc[i]));
        inward_takes_the_power(k, m, tau, qdd, b, js[i], acc, x, u, w, i, history[i], history[i - 1]);
        powers_are_those_of_the_torques(k, m, gravity, tau, qdd, b, js, history, acc, x, u, w, i - 1);
        assert(algebra::total(i + 1, g) == algebra::total(i, g) + g(i));
    } else {
        assert(algebra::total(1, f) == algebra::total(0, f) + f(0));
        assert(algebra::total(1, g) == algebra::total(0, g) + g(0));
    }
}

/// At rest a body takes no force but for its acceleration, and it has no drift.
proof fn nothing_moves_at_rest<K: SpatialMath>(k: &K, m: Model, q: Seq<Real>, v: Seq<Real>, b: Seq<Body>, i: int)
    requires
        m.wf(),
        rigid::exact_arithmetic(k),
        forall|c: int| 0 <= c < m.nv ==> exact::val(#[trigger] v[c]) == 0real,
        b.len() == m.joints@.len(),
        aba::body_states(k, m, q, v, b, m.joints@.len() as int),
        0 <= i < m.joints@.len(),
    ensures
        rigid::num(b[i].velocity) == algebra::nought(),
        i > 0 ==> rigid::num(b[i].drift) == algebra::nought() && rigid::num(b[i].force) == algebra::nought(),
    decreases i,
{
    rigid::zero_is_nought();
    if i > 0 {
        let p = m.parent(i);
        assert(m.joints@[i].parent < i);
        nothing_moves_at_rest(k, m, q, v, b, p);
        assert(aba::body_state(k, m, q, v, i, b[p].velocity, b[i]));
        let own = choose|own: Motion|
            {
                &&& #[trigger] fk::moving(k, m, v, b[i].placement, b[p].velocity, i, own, b[i].velocity)
                &&& call_ensures(K::motion_cross, (k, b[i].velocity, own), b[i].drift)
            };
        moving_is_exact(k, m, v, b[i].placement, b[p].velocity, i, own, b[i].velocity);
        m.ranges(i);
        let rates = |c: int| exact::val(v[m.v_idx@[i] + c]);
        let nv = m.kind(i).nv() as int;
        assert(own_velocity(m, v, i) =~= algebra::nought()) by {
            assert forall|t: int| 0 <= t < 6 implies #[trigger] own_velocity(m, v, i)[t] == 0real by {
                let f = |c: int| rates(c) * rigid::nums(m.kind(i).subspace())[c][t];
                assert forall|c: int| 0 <= c < nv implies #[trigger] f(c) == 0real by {
                    let y = rigid::nums(m.kind(i).subspace())[c][t];
                    assert(exact::val(v[m.v_idx@[i] + c]) == 0real);
                    assert(0real * y == 0real);
                }
                algebra::total_zero(nv, f);
                assert(own_velocity(m, v, i)[t] == algebra::total(nv, f));
            }
        }
        algebra::image_nought(rigid::frame(b[i].placement));
        assert(rigid::num(b[i].velocity) =~= algebra::nought());
        algebra::image_nought(rigid::crossing(rigid::num(b[i].velocity)));
        let h = choose|h: Motion| #[trigger]
            call_ensures(K::inertia_times, (k, b[i].inertia, b[i].velocity), h) && call_ensures(
                K::force_cross,
                (k, b[i].velocity, h),
                b[i].force,
            );
        algebra::image_nought(rigid::mat(b[i].inertia));
        algebra::image_nought(algebra::flip(rigid::crossing(rigid::num(b[i].velocity))));
        assert(rigid::num(b[i].force) =~= algebra::nought());
    }
}

/// Without gravity and at rest the bodies accelerate as they would move if the joints moved with the
/// accelerations.
proof fn accelerations_are_velocities<K: SpatialMath>(
    k: &K,
    m: Model,
    q: Seq<Real>,
    v: Seq<Real>,
    qdd: Seq<Real>,
    b: Seq<Body>,
    js: Seq<JointSolve>,
    acc: Seq<Motion>,
    x: Seq<Placement>,
    i: int,
)
    requires
        m.wf(),
        rigid::exact_arithmetic(k),
        forall|c: int| 0 <= c < m.nv ==> exact::val(#[trigger] v[c]) == 0real,
        b.len() == m.joints@.len(),
        forall|j: int| 0 < j < b.len() ==> (#[trigger] b[j]).placement == x[j],
        aba::body_states(k, m, q, v, b, m.joints@.len() as int),
        aba::outward_pass(k, m, Vector3::zero(), b, js, qdd, acc),
        0 <= i < m.joints@.len(),
    ensures
        rigid::num(acc[i]) == inertial::velocity(m, x, rigid::list(qdd), i),
    decreases i,
{
    if i > 0 {
        let p = m.parent(i);
        assert(m.joints@[i].parent < i);
        accelerations_are_velocities(k, m, q, v, qdd, b, js, acc, x, p);
        nothing_moves_at_rest(k, m, q, v, b, i);
        assert(aba::outward_step(k, m, b[i], js[i], i, acc[p], qdd, acc[i]));
        let (moved, start) = step_start(k, m, b[i], js[i], i, acc[p], qdd, acc[i]);
        let s = rigid::nums(m.kind(i).subspace());
        let nv = m.kind(i).nv() as int;
        joint::subspace_has_nv_columns(m.kind(i));
        let rates = |c: int| exact::val(qdd[m.v_idx@[i] as int + c]);
        algebra::blend_same(s, s, rates, energy::rates(m, rigid::list(qdd), i), nv);
        assert(rigid::num(start) =~= algebra::image(rigid::frame(x[i]), rigid::num(acc[p])));
        if nv > 0 {
            rigid::combination_on_is_a_blend(
                k,
                start,
                m.kind(i).subspace(),
                qdd,
                m.v_idx@[i] as int,
                m.kind(i).nv() as int,
                acc[i],
            );
        } else {
            algebra::blend_grows(s, rates, 0);
            assert(rigid::num(acc[i]) =~= algebra::plus(rigid::num(start), algebra::nought()));
        }
    } else {
        exact::signs_are_of_values(Real::zero());
        assert(Vector3::zero().x == Real::zero());
        assert forall|t: int| 0 <= t < 6 implies #[trigger] rigid::num(acc[0])[t] == 0real by {}
        assert(rigid::num(acc[0]) =~= algebra::nought());
    }
}

/// The mass matrix times the accelerations that forward dynamics gives at rest and without gravity is the
/// torques: what is computed so is the inverse of the mass matrix.
pub proof fn forward_dynamics_inverts_the_mass_matrix<K: SpatialMath>(
    k: &K,
    m: Model,
    q: Seq<Real>,
    tau: Seq<Real>,
    qdd: Seq<Real>,
    r: Matrix,
    c: int,
)
    requires
        m.wf(),
        rigid::exact_arithmetic(k),
        rigid::balanced(m),
        aba::forward_dynamics(k, m, Vector3::zero(), q, aba::zeros(m.nv as int), tau, qdd),
        r.sized(m.nv as int, m.nv as int),
        crba::mass_matrix(k, m, q, r),
        0 <= c < m.nv,
    ensures
        algebra::total(m.nv as int, |j: int| exact::val(r.at(c, j)) * exact::val(qdd[j])) == exact::val(tau[c]),
{
    let n = m.joints@.len() as int;
    let nv = m.nv as int;
    let v = aba::zeros(nv);
    let (b, js, history, acc) = choose|
        b: Seq<Body>,
        js: Seq<JointSolve>,
        history: Seq<Seq<Articulated>>,
        acc: Seq<Motion>,
    |
        {
            &&& b.len() == m.joints@.len()
            &&& aba::body_states(k, m, q, v, b, m.joints@.len() as int)
            &&& #[trigger] aba::inward_pass(k, m, tau, b, js, history)
            &&& #[trigger] aba::outward_pass(k, m, Vector3::zero(), b, js, qdd, acc)
        };
    let x = Seq::new(b.len(), |i: int| b[i].placement);
    assert(crba::all_relative(k, m, q, x)) by {
        assert forall|i: int| 1 <= i < x.len() implies #[trigger] model::relative(k, m, q, i, x[i]) by {
            assert(aba::body_state(k, m, q, v, i, b[m.parent(i)].velocity, b[i]));
        }
    }
    exact::signs_are_of_values(Real::zero());
    let u = algebra::unit(c);
    let w = inertial::velocities(m, x, u);
    inertial::velocities_are_in_motion(m, x, u);
    let s = history[n - 1];
    assert forall|j: int| 1 <= j <= n - 1 implies algebra::even(rigid::mat((#[trigger] s[j]).inertia)) by {
        assert(aba::body_state(k, m, q, v, j, b[m.parent(j)].velocity, b[j]));
        energy::bodies_are_even(k, m, j, b[j].inertia);
    }
    powers_are_those_of_the_torques(k, m, Vector3::zero(), tau, qdd, b, js, history, acc, x, u, w, n - 1);
    let (f, g) = (powers(w, acc, s), |i: int| inertial::shared(m, x, u, rigid::list(qdd), i));
    assert forall|i: int| 0 <= i < n implies #[trigger] f(i) == g(i) by {
        if i > 0 {
            nothing_moves_at_rest(k, m, q, v, b, i);
            accelerations_are_velocities(k, m, q, v, qdd, b, js, acc, x, i);
            assert(aba::body_state(k, m, q, v, i, b[m.parent(i)].velocity, b[i]));
            let a = rigid::num(acc[i]);
            assert(algebra::image(rigid::mat(b[i].inertia), a) == algebra::image(rigid::link(m.inertias@[i]), a));
            assert(takes(s[i], a) =~= algebra::image(rigid::link(m.inertias@[i]), a));
        }
    }
    algebra::total_same(n, f, g);
    let work = |j: int| u(j) * exact::val(tau[j]);
    energy::total_by_joints(m, n, work);
    let (y, z) = (
        |i: int| algebra::total(m.kind(i).nv() as int, |t: int| work(m.v_idx@[i] + t)),
        |i: int| if i <= 0 { 0real } else { joint_power(m, u, tau, i) },
    );
    assert forall|i: int| 0 <= i < n implies #[trigger] y(i) == z(i) by {
        if i == 0 {
            assert(m.kind(0) == joint::JointType::Fixed);
        } else {
            algebra::total_same(
                m.kind(i).nv() as int,
                |t: int| work(m.v_idx@[i] + t),
                |t: int| u(m.v_idx@[i] + t) * exact::val(tau[m.v_idx@[i] + t]),
            );
        }
    }
    algebra::total_same(n, y, z);
    inertial::unit_picks_a_number(nv, tau, c);
    inertial::mass_matrix_couples_the_bodies(k, m, q, x, u, rigid::list(qdd), r);
    inertial::unit_picks_a_row(nv, r, c, rigid::list(qdd));
    algebra::total_same(
        nv,
        |j: int| exact::val(r.at(c, j)) * rigid::list(qdd)(j),
        |j: int| exact::val(r.at(c, j)) * exact::val(qdd[j]),
    );
}

} // verus!
