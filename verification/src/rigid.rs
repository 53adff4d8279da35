//! Rigid bodies in values: what the arithmetic on spatial quantities stands for.

use vstd::prelude::*;
use crate::aba;
use crate::algebra;
use crate::exact;
use crate::model;
use crate::spatial;
use crate::model::Model;
use crate::number::{Real, Vector3};
use crate::spatial::{Inertia, LinkInertia, Motion, Placement, SpatialMath};

verus! {

// ── Values ──

/// The values of a spatial vector.
pub open spec fn num(m: Motion) -> Seq<real> {
    Seq::new(6, |t: int| exact::val(spatial::six_of(m)[t]))
}

/// The values of spatial vectors.
pub open spec fn nums(s: Seq<Motion>) -> Seq<Seq<real>> {
    Seq::new(s.len(), |c: int| num(s[c]))
}

/// The values of the numbers of a list.
pub open spec fn list(e: Seq<Real>) -> spec_fn(int) -> real {
    |c: int| exact::val(e[c])
}

/// The values of an inertia, by row and column.
pub open spec fn mat(i: Inertia) -> spec_fn(int, int) -> real {
    |r: int, c: int| exact::val(i.m[6 * c + r])
}

/// The matrix of the cross product with a vector of space.
pub open spec fn skew(x: real, y: real, z: real, r: int, c: int) -> real {
    if r == 0 && c == 1 {
        -z
    } else if r == 0 && c == 2 {
        y
    } else if r == 1 && c == 0 {
        z
    } else if r == 1 && c == 2 {
        -x
    } else if r == 2 && c == 0 {
        -y
    } else if r == 2 && c == 1 {
        x
    } else {
        0real
    }
}

/// The rotation of a placement, by row and column.
pub open spec fn turn(x: Placement, r: int, c: int) -> real {
    let (i, j, k, w) = (exact::val(x.i), exact::val(x.j), exact::val(x.k), exact::val(x.w));
    if r == 0 && c == 0 {
        w * w + i * i - j * j - k * k
    } else if r == 0 && c == 1 {
        2real * (i * j - w * k)
    } else if r == 0 && c == 2 {
        2real * (i * k + w * j)
    } else if r == 1 && c == 0 {
        2real * (i * j + w * k)
    } else if r == 1 && c == 1 {
        w * w - i * i + j * j - k * k
    } else if r == 1 && c == 2 {
        2real * (j * k - w * i)
    } else if r == 2 && c == 0 {
        2real * (i * k - w * j)
    } else if r == 2 && c == 1 {
        2real * (j * k + w * i)
    } else {
        w * w - i * i - j * j + k * k
    }
}

/// What a frame placed at `x` makes of the motions of its parent's, by row and column.
pub open spec fn frame(x: Placement) -> spec_fn(int, int) -> real {
    let p = x.translation;
    let (px, py, pz) = (exact::val(p.x), exact::val(p.y), exact::val(p.z));
    |r: int, c: int|
        if r < 3 && c < 3 {
            turn(x, c, r)
        } else if r >= 3 && c >= 3 {
            turn(x, c - 3, r - 3)
        } else if r >= 3 {
            -algebra::total(3, |t: int| turn(x, t, r - 3) * skew(px, py, pz, t, c))
        } else {
            0real
        }
}

/// How a motion changes by the motion `v`, by row and column.
pub open spec fn crossing(v: Seq<real>) -> spec_fn(int, int) -> real {
    |r: int, c: int|
        if r < 3 && c < 3 {
            skew(v[0], v[1], v[2], r, c)
        } else if r >= 3 && c >= 3 {
            skew(v[0], v[1], v[2], r - 3, c - 3)
        } else if r >= 3 {
            skew(v[3], v[4], v[5], r - 3, c)
        } else {
            0real
        }
}

/// The spatial inertia of a link, by row and column.
pub open spec fn link(l: LinkInertia) -> spec_fn(int, int) -> real {
    let p = l.center_of_mass;
    let (x, y, z) = (exact::val(p.x), exact::val(p.y), exact::val(p.z));
    let mass = exact::val(l.mass);
    |r: int, c: int|
        if r < 3 && c < 3 {
            exact::val(l.rotational_inertia[3 * c + r]) + mass * algebra::total(
                3,
                |t: int| skew(x, y, z, r, t) * skew(x, y, z, c, t),
            )
        } else if r < 3 {
            mass * skew(x, y, z, r, c - 3)
        } else if c < 3 {
            mass * skew(x, y, z, c, r - 3)
        } else if r == c {
            mass
        } else {
            0real
        }
}

/// Whether the rotational inertia of every link is the same by row and by column.
pub open spec fn balanced(m: Model) -> bool {
    forall|i: int, r: int, c: int|
        #![trigger m.inertias@[i].rotational_inertia[3 * c + r]]
        1 <= i < m.inertias@.len() && 0 <= r < 3 && 0 <= c < 3 ==> exact::val(
            m.inertias@[i].rotational_inertia[3 * c + r],
        ) == exact::val(m.inertias@[i].rotational_inertia[3 * r + c])
}

/// The inertia of a link is even if its rotational inertia is.
pub proof fn links_are_even(m: Model, i: int)
    requires
        balanced(m),
        1 <= i < m.inertias@.len(),
    ensures
        algebra::even(link(m.inertias@[i])),
{
    let l = m.inertias@[i];
    let w = link(l);
    assert forall|r: int, c: int| 0 <= r < 6 && 0 <= c < 6 implies #[trigger] w(r, c) == w(c, r) by {
        if r < 3 && c < 3 {
            let p = l.center_of_mass;
            let (x, y, z) = (exact::val(p.x), exact::val(p.y), exact::val(p.z));
            let f = |t: int| skew(x, y, z, r, t) * skew(x, y, z, c, t);
            let g = |t: int| skew(x, y, z, c, t) * skew(x, y, z, r, t);
            assert forall|t: int| 0 <= t < 3 implies #[trigger] f(t) == g(t) by {
                let (a, b) = (skew(x, y, z, r, t), skew(x, y, z, c, t));
                assert(a * b == b * a) by (nonlinear_arith);
            }
            algebra::total_same(3, f, g);
            assert(exact::val(l.rotational_inertia[3 * c + r]) == exact::val(l.rotational_inertia[3 * r + c]));
        }
    }
    algebra::flipped_alike_is_even(w);
}

// ── Arithmetic ──

/// Whether numbers are computed exactly, or not at all.
pub open spec fn exact_scalars<K: SpatialMath>(k: &K) -> bool {
    &&& forall|a: Real, b: Real, r: Real| #[trigger]
        call_ensures(K::sum, (k, a, b), r) ==> exact::val(r) == exact::val(a) + exact::val(b)
    &&& forall|a: Real, b: Real, r: Real| #[trigger]
        call_ensures(K::difference, (k, a, b), r) ==> exact::val(r) == exact::val(a) - exact::val(b)
    &&& forall|a: Real, b: Real, r: Real| #[trigger]
        call_ensures(K::product, (k, a, b), r) ==> exact::val(r) == exact::val(a) * exact::val(b)
    &&& forall|a: Real, b: Real, r: Real| #[trigger]
        call_ensures(K::quotient, (k, a, b), r) ==> exact::val(r) * exact::val(b) == exact::val(a)
    &&& forall|d: Vec<Vec<Real>>, e: Vec<Real>, x: [Real; 6]| #[trigger]
        call_ensures(K::solve, (k, &d, &e), x) ==> solves(d, e, x)
}

/// Whether `x` begins with the solution of `D x = e`.
pub open spec fn solves(d: Vec<Vec<Real>>, e: Vec<Real>, x: [Real; 6]) -> bool {
    forall|r: int|
        0 <= r < e@.len() ==> exact::val(#[trigger] e@[r]) == algebra::total(
            e@.len() as int,
            |c: int| exact::val(d@[r]@[c]) * exact::val(x[c]),
        )
}

/// Whether spatial vectors are computed exactly, or not at all.
pub open spec fn exact_vectors<K: SpatialMath>(k: &K) -> bool {
    &&& forall|a: Motion, b: Motion, r: Motion| #[trigger]
        call_ensures(K::motion_sum, (k, a, b), r) ==> num(r) == algebra::plus(num(a), num(b))
    &&& forall|a: Motion, s: Motion, x: Real, r: Motion| #[trigger]
        call_ensures(K::motion_add_scaled, (k, a, s, x), r) ==> num(r) == algebra::plus(
            num(a),
            algebra::times(exact::val(x), num(s)),
        )
    &&& forall|a: Motion, b: Motion, r: Real| #[trigger]
        call_ensures(K::dot, (k, a, b), r) ==> exact::val(r) == algebra::pair(num(a), num(b))
    &&& forall|x: Placement, v: Motion, r: Motion| #[trigger]
        call_ensures(K::motion_to_child, (k, x, v), r) ==> num(r) == algebra::image(frame(x), num(v))
    &&& forall|x: Placement, f: Motion, r: Motion| #[trigger]
        call_ensures(K::force_to_parent, (k, x, f), r) ==> num(r) == algebra::image(
            algebra::flip(frame(x)),
            num(f),
        )
    &&& forall|v: Motion, a: Motion, r: Motion| #[trigger]
        call_ensures(K::motion_cross, (k, v, a), r) ==> num(r) == algebra::image(crossing(num(v)), num(a))
    &&& forall|v: Motion, f: Motion, r: Motion| #[trigger]
        call_ensures(K::force_cross, (k, v, f), r) ==> num(r) == algebra::times(
            -1real,
            algebra::image(algebra::flip(crossing(num(v))), num(f)),
        )
}

/// Whether spatial inertias are computed exactly, or not at all.
pub open spec fn exact_inertias<K: SpatialMath>(k: &K) -> bool {
    &&& forall|l: LinkInertia, i: Inertia, a: Seq<real>|
        #![trigger call_ensures(K::body_inertia, (k, l), i), algebra::image(mat(i), a)]
        call_ensures(K::body_inertia, (k, l), i) ==> algebra::image(mat(i), a) == algebra::image(link(l), a)
    &&& forall|i: Inertia, j: Inertia, r: Inertia, a: Seq<real>|
        #![trigger call_ensures(K::inertia_sum, (k, i, j), r), algebra::image(mat(r), a)]
        call_ensures(K::inertia_sum, (k, i, j), r) ==> algebra::image(mat(r), a) == algebra::plus(
            algebra::image(mat(i), a),
            algebra::image(mat(j), a),
        )
    &&& forall|x: Placement, i: Inertia, r: Inertia, a: Seq<real>|
        #![trigger call_ensures(K::inertia_to_parent, (k, x, i), r), algebra::image(mat(r), a)]
        call_ensures(K::inertia_to_parent, (k, x, i), r) ==> algebra::image(mat(r), a) == algebra::image(
            algebra::flip(frame(x)),
            algebra::image(mat(i), algebra::image(frame(x), a)),
        )
    &&& forall|i: Inertia, v: Motion, r: Motion| #[trigger]
        call_ensures(K::inertia_times, (k, i, v), r) ==> num(r) == algebra::image(mat(i), num(v))
}

/// Whether whatever the arithmetic gives back is exact: it may give back nothing where there is no such
/// number, but what it gives back has the value that it stands for.  Placements are computed alike
/// each time.
pub open spec fn exact_arithmetic<K: SpatialMath>(k: &K) -> bool {
    &&& exact_scalars(k)
    &&& exact_vectors(k)
    &&& exact_inertias(k)
    &&& spatial::places_alike(k)
}

/// The placement of a joint in the frame of its parent is the same each time.
pub proof fn relative_repeats_itself<K: SpatialMath>(k: &K, m: Model, q: Seq<Real>, i: int, x: Placement, y: Placement)
    requires
        spatial::places_alike(k),
        model::relative(k, m, q, i, x),
        model::relative(k, m, q, i, y),
    ensures
        x == y,
{
    let at = m.q_idx@[i] as int;
    let a = choose|a: Placement|
        {
            &&& #[trigger] m.kind(i).placed(k, q, at, a)
            &&& call_ensures(K::compose, (k, m.joints@[i].placement, a), x)
        };
    let b = choose|b: Placement|
        {
            &&& #[trigger] m.kind(i).placed(k, q, at, b)
            &&& call_ensures(K::compose, (k, m.joints@[i].placement, b), y)
        };
    assert(a == b);
}

/// The zero vector is zero.
pub proof fn zero_is_nought()
    ensures
        num(Motion::zero()) == algebra::nought(),
{
    exact::signs_are_of_values(Real::zero());
    assert forall|t: int| 0 <= t < 6 implies #[trigger] num(Motion::zero())[t] == 0real by {
        assert(spatial::six_of(Motion::zero())[t] == Real::zero());
    }
    assert(num(Motion::zero()) =~= algebra::nought());
}

/// Vectors that are added up, each times its number, give the sum.
pub proof fn combination_is_a_blend<K: SpatialMath>(k: &K, s: Seq<Motion>, x: Seq<Real>, at: int, n: int, r: Motion)
    requires
        exact_vectors(k),
        n <= s.len(),
        spatial::combination(k, s, x, at, n, r),
    ensures
        num(r) == algebra::blend(nums(s), |c: int| exact::val(x[at + c]), n),
    decreases n,
{
    let u = |c: int| exact::val(x[at + c]);
    algebra::blend_grows(nums(s), u, n);
    if n <= 0 {
        zero_is_nought();
    } else {
        let p = choose|p: Motion|
            {
                &&& spatial::combination(k, s, x, at, n - 1, p)
                &&& #[trigger] call_ensures(K::motion_add_scaled, (k, p, s[n - 1], x[at + n - 1]), r)
            };
        combination_is_a_blend(k, s, x, at, n - 1, p);
        assert(nums(s)[n - 1] == num(s[n - 1]));
        assert(u(n - 1) == exact::val(x[at + n - 1]));
    }
}

/// Vectors that are added to another, each times its number, give the sum.
pub proof fn combination_on_is_a_blend<K: SpatialMath>(
    k: &K,
    start: Motion,
    s: Seq<Motion>,
    x: Seq<Real>,
    at: int,
    n: int,
    r: Motion,
)
    requires
        exact_vectors(k),
        n <= s.len(),
        aba::combination_on(k, start, s, x, at, n, r),
    ensures
        num(r) == algebra::plus(num(start), algebra::blend(nums(s), |c: int| exact::val(x[at + c]), n)),
    decreases n,
{
    let u = |c: int| exact::val(x[at + c]);
    algebra::blend_grows(nums(s), u, n);
    if n <= 0 {
        assert(num(r) =~= algebra::plus(num(start), algebra::nought()));
    } else {
        let p = choose|p: Motion|
            {
                &&& aba::combination_on(k, start, s, x, at, n - 1, p)
                &&& #[trigger] call_ensures(K::motion_add_scaled, (k, p, s[n - 1], x[at + n - 1]), r)
            };
        combination_on_is_a_blend(k, start, s, x, at, n - 1, p);
        assert(nums(s)[n - 1] == num(s[n - 1]));
        assert(u(n - 1) == exact::val(x[at + n - 1]));
        assert(num(r) =~= algebra::plus(num(start), algebra::blend(nums(s), u, n)));
    }
}

} // verus!
