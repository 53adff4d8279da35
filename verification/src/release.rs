//! What is felt of an articulated body in front of its joint.

use vstd::prelude::*;
use crate::spatial;
use crate::number::Real;
use crate::spatial::{combine, component, Inertia, Motion, SpatialMath};

verus! {

// ── Solving for a joint ──

/// Whether `g` is one divided by the only entry of `D`.
pub open spec fn inverted<K: SpatialMath>(k: &K, d: Vec<Vec<Real>>, g: Real) -> bool {
    call_ensures(K::quotient, (k, Real::one(), d@[0]@[0]), g)
}

/// Whether `x` begins with the solution of `D x = e`: with a single unknown the entry of `D` is
/// divided by, with more the system is solved.
pub open spec fn answers<K: SpatialMath>(k: &K, d: Vec<Vec<Real>>, e: Vec<Real>, x: [Real; 6]) -> bool {
    if e@.len() == 1 {
        exists|g: Real| #[trigger] inverted(k, d, g) && call_ensures(K::product, (k, g, e@[0]), x[0])
    } else {
        call_ensures(K::solve, (k, &d, &e), x)
    }
}

/// Solves `D x = e`.
pub fn answer<K: SpatialMath>(k: &K, d: &Vec<Vec<Real>>, e: &Vec<Real>) -> (x: [Real; 6])
    requires
        d@.len() == e@.len(),
        forall|r: int| 0 <= r < d@.len() ==> (#[trigger] d@[r])@.len() == e@.len(),
    ensures
        answers(k, *d, *e, x),
{
    if e.len() == 1 {
        let g = k.quotient(Real::one(), d[0][0]);
        assert(inverted(k, *d, g));
        let z = Real::zero();
        [k.product(g, e[0]), z, z, z, z, z]
    } else {
        k.solve(d, e)
    }
}

// ── Inertia ──

/// Whether `r` is `x - g a b`.
pub open spec fn lessened<K: SpatialMath>(k: &K, x: Real, g: Real, a: Real, b: Real, r: Real) -> bool {
    exists|s: Real, t: Real|
        {
            &&& #[trigger] call_ensures(K::product, (k, g, a), s)
            &&& #[trigger] call_ensures(K::product, (k, s, b), t)
            &&& call_ensures(K::difference, (k, x, t), r)
        }
}

/// Whether `r` is the `x`-th entry, column by column, of `i - g u uᵀ`.
pub open spec fn entry_lessened<K: SpatialMath>(k: &K, i: Inertia, u: Motion, g: Real, x: int, r: Real) -> bool {
    lessened(k, i.m[x], g, spatial::six_of(u)[x % 6], spatial::six_of(u)[x / 6], r)
}

/// Whether `e` has `n` entries, the `c`-th one and the others zero.
pub open spec fn is_unit(e: Seq<Real>, n: int, c: int) -> bool {
    &&& e.len() == n
    &&& forall|i: int|
        0 <= i < n ==> #[trigger] e[i] == if i == c {
            Real::one()
        } else {
            Real::zero()
        }
}

/// Whether `x` begins with the `c`-th column of the inverse of `D`, which has `n` columns.
pub open spec fn inverse_column<K: SpatialMath>(k: &K, d: Vec<Vec<Real>>, n: int, c: int, x: [Real; 6]) -> bool {
    exists|e: Vec<Real>| is_unit(e@, n, c) && #[trigger] call_ensures(K::solve, (k, &d, &e), x)
}

/// The `c`-th numbers of spatial vectors.
pub open spec fn parts(u: Seq<Motion>, c: int) -> Seq<Real> {
    u.map_values(|v: Motion| spatial::six_of(v)[c])
}

/// Whether the `c`-th column of `w` is that of `U D⁻¹`.
pub open spec fn weighs<K: SpatialMath>(k: &K, u: Seq<Motion>, d: Vec<Vec<Real>>, c: int, w: Seq<Motion>) -> bool {
    exists|x: [Real; 6]| #[trigger]
        inverse_column(k, d, u.len() as int, c, x) && spatial::combination(k, u, x@, 0, u.len() as int, w[c])
}

/// Whether `w` holds the columns of `U D⁻¹`.
pub open spec fn weighted<K: SpatialMath>(k: &K, u: Seq<Motion>, d: Vec<Vec<Real>>, w: Seq<Motion>) -> bool {
    &&& w.len() == u.len()
    &&& forall|c: int| 0 <= c < u.len() ==> #[trigger] weighs(k, u, d, c, w)
}

/// Whether `y` is the `c`-th column of `W Uᵀ`.
pub open spec fn taken<K: SpatialMath>(k: &K, w: Seq<Motion>, u: Seq<Motion>, c: int, y: Motion) -> bool {
    spatial::combination(k, w, parts(u, c), 0, w.len() as int, y)
}

/// Whether `y` holds the columns of `W Uᵀ`.
pub open spec fn all_taken<K: SpatialMath>(k: &K, w: Seq<Motion>, u: Seq<Motion>, y: Seq<Motion>) -> bool {
    &&& y.len() == 6
    &&& forall|c: int| 0 <= c < 6 ==> #[trigger] taken(k, w, u, c, y[c])
}

/// Whether `r` is the inertia `i` without what a joint gives way to: `i - U D⁻¹ Uᵀ`.
///
/// For a single direction of motion the entries are `i - D⁻¹ u uᵀ`.  For more, `U D⁻¹` and then its
/// product with `Uᵀ` are added up, column by column.
pub open spec fn reduces<K: SpatialMath>(k: &K, i: Inertia, u: Seq<Motion>, d: Vec<Vec<Real>>, r: Inertia) -> bool {
    if u.len() == 1 {
        exists|g: Real| #[trigger]
            inverted(k, d, g) && forall|x: int|
                0 <= x < 36 ==> entry_lessened(k, i, u[0], g, x, #[trigger] r.m[x])
    } else {
        exists|w: Seq<Motion>, y: Seq<Motion>|
            {
                &&& #[trigger] weighted(k, u, d, w)
                &&& #[trigger] all_taken(k, w, u, y)
                &&& forall|x: int|
                    0 <= x < 36 ==> call_ensures(
                        K::difference,
                        (k, i.m[x], spatial::six_of(y[x / 6])[x % 6]),
                        #[trigger] r.m[x],
                    )
            }
    }
}

fn reduce_once<K: SpatialMath>(k: &K, i: &Inertia, u: &Motion, g: Real) -> (r: Inertia)
    ensures
        forall|x: int|
            0 <= x < 36 ==> entry_lessened(k, *i, *u, g, x, #[trigger] r.m[x]),
{
    let mut m: [Real; 36] = i.m;
    for x in 0..36usize
        invariant
            forall|y: int|
                0 <= y < x ==> entry_lessened(k, *i, *u, g, y, #[trigger] m[y]),
    {
        let s = k.product(g, component(*u, x % 6));
        let t = k.product(s, component(*u, x / 6));
        let z = k.difference(i.m[x], t);
        assert(entry_lessened(k, *i, *u, g, x as int, z));
        m[x] = z;
    }
    Inertia { m }
}

fn unit(n: usize, c: usize) -> (e: Vec<Real>)
    ensures
        is_unit(e@, n as int, c as int),
{
    let mut e: Vec<Real> = Vec::new();
    for i in 0..n
        invariant
            is_unit(e@, i as int, c as int),
    {
        e.push(if i == c { Real::one() } else { Real::zero() });
    }
    e
}

fn weigh<K: SpatialMath>(k: &K, u: &Vec<Motion>, d: &Vec<Vec<Real>>) -> (w: Vec<Motion>)
    requires
        u@.len() <= 6,
    ensures
        weighted(k, u@, *d, w@),
{
    let n: usize = u.len();
    let mut w: Vec<Motion> = Vec::new();
    for c in 0..n
        invariant
            n == u@.len(),
            n <= 6,
            w@.len() == c,
            forall|j: int| 0 <= j < c ==> #[trigger] weighs(k, u@, *d, j, w@),
    {
        let ghost before = w@;
        let e = unit(n, c);
        let x: [Real; 6] = k.solve(d, &e);
        assert(call_ensures(K::solve, (k, d, &e), x));
        assert(inverse_column(k, *d, n as int, c as int, x));
        w.push(combine(k, u, x.as_slice(), 0));
        assert forall|j: int| 0 <= j < c + 1 implies #[trigger] weighs(k, u@, *d, j, w@) by {
            if j < c {
                assert(weighs(k, u@, *d, j, before));
                assert(w@[j] == before[j]);
            }
        }
    }
    w
}

fn copy_parts(u: &Vec<Motion>, c: usize) -> (r: Vec<Real>)
    requires
        c < 6,
    ensures
        r@ == parts(u@, c as int),
{
    let mut r: Vec<Real> = Vec::new();
    for j in 0..u.len()
        invariant
            c < 6,
            r@ == parts(u@, c as int).take(j as int),
    {
        r.push(component(u[j], c));
        assert(r@ =~= parts(u@, c as int).take(j + 1));
    }
    assert(r@ =~= parts(u@, c as int));
    r
}

fn reduce_jointly<K: SpatialMath>(k: &K, i: &Inertia, u: &Vec<Motion>, d: &Vec<Vec<Real>>) -> (r: Inertia)
    requires
        u@.len() <= 6,
        u@.len() != 1,
    ensures
        reduces(k, *i, u@, *d, r),
{
    let w = weigh(k, u, d);
    let mut y: Vec<Motion> = Vec::new();
    for c in 0..6usize
        invariant
            w@.len() == u@.len(),
            y@.len() == c,
            forall|j: int| 0 <= j < c ==> #[trigger] taken(k, w@, u@, j, y@[j]),
    {
        let p = copy_parts(u, c);
        let ghost before = y@;
        y.push(combine(k, &w, p.as_slice(), 0));
        assert forall|j: int| 0 <= j < c + 1 implies #[trigger] taken(k, w@, u@, j, y@[j]) by {
            if j < c {
                assert(taken(k, w@, u@, j, before[j]));
            }
        }
    }
    let mut m: [Real; 36] = i.m;
    for x in 0..36usize
        invariant
            y@.len() == 6,
            forall|z: int|
                0 <= z < x ==> call_ensures(
                    K::difference,
                    (k, i.m[z], spatial::six_of(y@[z / 6])[z % 6]),
                    #[trigger] m[z],
                ),
    {
        let z = k.difference(i.m[x], component(y[x / 6], x % 6));
        m[x] = z;
    }
    let r = Inertia { m };
    assert(weighted(k, u@, *d, w@));
    assert(all_taken(k, w@, u@, y@));
    r
}

/// Takes from an inertia what a joint gives way to.
pub fn reduce<K: SpatialMath>(k: &K, i: &Inertia, u: &Vec<Motion>, d: &Vec<Vec<Real>>) -> (r: Inertia)
    requires
        u@.len() <= 6,
        d@.len() == u@.len(),
        forall|r: int| 0 <= r < d@.len() ==> (#[trigger] d@[r])@.len() == u@.len(),
    ensures
        reduces(k, *i, u@, *d, r),
{
    if u.len() == 1 {
        let g = k.quotient(Real::one(), d[0][0]);
        assert(inverted(k, *d, g));
        reduce_once(k, i, &u[0], g)
    } else {
        reduce_jointly(k, i, u, d)
    }
}

// ── Force ──

/// Whether `r` is the bias force in front of a joint: `p + i c + U D⁻¹ e`.
pub open spec fn pushes<K: SpatialMath>(
    k: &K,
    p: Motion,
    i: Inertia,
    c: Motion,
    u: Seq<Motion>,
    d: Vec<Vec<Real>>,
    e: Vec<Real>,
    r: Motion,
) -> bool {
    exists|h: Motion, f: Motion, x: [Real; 6]|
        {
            &&& #[trigger] call_ensures(K::inertia_times, (k, i, c), h)
            &&& #[trigger] call_ensures(K::motion_sum, (k, p, h), f)
            &&& #[trigger] answers(k, d, e, x)
            &&& if u.len() == 1 {
                call_ensures(K::motion_add_scaled, (k, f, u[0], x[0]), r)
            } else {
                exists|g: Motion| #[trigger]
                    spatial::combination(k, u, x@, 0, u.len() as int, g) && call_ensures(
                        K::motion_sum,
                        (k, f, g),
                        r,
                    )
            }
        }
}

/// The bias force in front of a joint.
pub fn bias_force<K: SpatialMath>(
    k: &K,
    p: Motion,
    i: Inertia,
    c: Motion,
    u: &Vec<Motion>,
    d: &Vec<Vec<Real>>,
    e: &Vec<Real>,
) -> (r: Motion)
    requires
        u@.len() <= 6,
        e@.len() == u@.len(),
        d@.len() == u@.len(),
        forall|r: int| 0 <= r < d@.len() ==> (#[trigger] d@[r])@.len() == u@.len(),
    ensures
        pushes(k, p, i, c, u@, *d, *e, r),
{
    let h = k.inertia_times(i, c);
    let f = k.motion_sum(p, h);
    let x = answer(k, d, e);
    assert(call_ensures(K::inertia_times, (k, i, c), h));
    assert(call_ensures(K::motion_sum, (k, p, h), f));
    assert(answers(k, *d, *e, x));
    if u.len() == 1 {
        k.motion_add_scaled(f, u[0], x[0])
    } else {
        let g = combine(k, u, x.as_slice(), 0);
        assert(spatial::combination(k, u@, x@, 0, u@.len() as int, g));
        k.motion_sum(f, g)
    }
}

} // verus!
