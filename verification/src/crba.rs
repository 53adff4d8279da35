//! The mass matrix by composite bodies.

use vstd::prelude::*;
use crate::jacobian;
use crate::model;
use crate::matrix::Matrix;
use crate::model::{relative_placement, Model};
use crate::number::Real;
use crate::spatial::{Inertia, Motion, Placement, SpatialMath};

verus! {

/// Whether `x` places each joint in the frame of its parent.
pub open spec fn all_relative<K: SpatialMath>(k: &K, m: Model, q: Seq<Real>, x: Seq<Placement>) -> bool {
    &&& x.len() == m.joints@.len()
    &&& forall|i: int| 1 <= i < x.len() ==> #[trigger] model::relative(k, m, q, i, x[i])
}

/// Places each joint in the frame of its parent.
pub fn relative_placements<K: SpatialMath>(k: &K, model: &Model, q: &[Real]) -> (x: Vec<Placement>)
    requires
        model.wf(),
        q@.len() == model.nq,
    ensures
        all_relative(k, *model, q@, x@),
{
    let mut x: Vec<Placement> = Vec::new();
    x.push(Placement::identity());
    let n: usize = model.joints.len();
    for i in 1..n
        invariant
            n == model.joints@.len(),
            model.wf(),
            q@.len() == model.nq,
            x@.len() == i,
            forall|j: int| 1 <= j < i ==> #[trigger] model::relative(k, *model, q@, j, x@[j]),
    {
        x.push(relative_placement(k, model, q, i));
    }
    x
}

/// Whether the composite body `i` is added to that of its parent on the way from `s` to `t`.
pub open spec fn lumped<K: SpatialMath>(
    k: &K,
    m: Model,
    x: Seq<Placement>,
    i: int,
    s: Seq<Inertia>,
    t: Seq<Inertia>,
) -> bool {
    let p = m.parent(i);
    if p > 0 {
        &&& exists|c: Inertia| #[trigger]
            call_ensures(K::inertia_to_parent, (k, x[i], s[i]), c) && call_ensures(
                K::inertia_sum,
                (k, s[p], c),
                t[p],
            )
        &&& t == s.update(p, t[p])
    } else {
        t == s
    }
}

/// Whether `history` leads from the bodies to the composite bodies `c`, last joint first:
/// its `i`-th entry is the state before body `i` is handled.
pub open spec fn lumping<K: SpatialMath>(
    k: &K,
    m: Model,
    x: Seq<Placement>,
    history: Seq<Seq<Inertia>>,
    c: Seq<Inertia>,
) -> bool {
    let n = m.joints@.len() as int;
    &&& history.len() == n
    &&& history[n - 1].len() == n
    &&& forall|i: int|
        1 <= i < n ==> call_ensures(K::body_inertia, (k, m.inertias@[i]), #[trigger] history[n - 1][i])
    &&& forall|i: int| 1 <= i < n ==> #[trigger] lumped(k, m, x, i, history[i], history[i - 1])
    &&& c == history[0]
    &&& c.len() == n
}

/// Whether `c` are the composite bodies: each body with all that is attached to it.
pub open spec fn composite<K: SpatialMath>(k: &K, m: Model, x: Seq<Placement>, c: Seq<Inertia>) -> bool {
    exists|history: Seq<Seq<Inertia>>| #[trigger] lumping(k, m, x, history, c)
}

fn composite_bodies<K: SpatialMath>(k: &K, model: &Model, x: &Vec<Placement>) -> (c: Vec<Inertia>)
    requires
        model.wf(),
        x@.len() == model.joints@.len(),
    ensures
        c@.len() == model.joints@.len(),
        composite(k, *model, x@, c@),
{
    let n: usize = model.joints.len();
    let mut c: Vec<Inertia> = Vec::new();
    c.push(Inertia::zero());
    for i in 1..n
        invariant
            n == model.joints@.len(),
            model.wf(),
            c@.len() == i,
            forall|j: int|
                1 <= j < i ==> call_ensures(K::body_inertia, (k, model.inertias@[j]), #[trigger] c@[j]),
    {
        c.push(k.body_inertia(model.inertias[i]));
    }
    let ghost singles = c@;
    let ghost mut history: Seq<Seq<Inertia>> = Seq::new(n as nat, |i: int| singles);
    let mut i: usize = n - 1;
    while i > 0
        invariant
            n == model.joints@.len(),
            model.wf(),
            x@.len() == n,
            i < n,
            c@.len() == n,
            history.len() == n,
            history[n - 1] == singles,
            history[i as int] == c@,
            forall|j: int|
                i < j < n ==> #[trigger] lumped(k, *model, x@, j, history[j], history[j - 1]),
        decreases i,
    {
        let ghost s0 = c@;
        let ghost h0 = history;
        let p: usize = model.joints[i].parent;
        if p > 0 {
            let moved = k.inertia_to_parent(x[i], c[i]);
            let sum = k.inertia_sum(c[p], moved);
            assert(call_ensures(K::inertia_to_parent, (k, x@[i as int], s0[i as int]), moved));
            c.set(p, sum);
        }
        proof {
            history = history.update(i - 1, c@);
            assert(lumped(k, *model, x@, i as int, s0, c@)) by {
                assert(p < i);
                if p > 0 {
                    assert(c@ =~= s0.update(p as int, c@[p as int]));
                }
            }
            assert forall|j: int| i - 1 < j < n implies #[trigger] lumped(
                k,
                *model,
                x@,
                j,
                history[j],
                history[j - 1],
            ) by {
                if j > i {
                    assert(lumped(k, *model, x@, j, h0[j], h0[j - 1]));
                }
            }
        }
        i = i - 1;
    }
    assert(lumping(k, *model, x@, history, c@));
    c
}

/// Whether `g` is the force `f` on body `i` as seen in the frame of body `j`, which is
/// on the way from `i` to the world.
pub open spec fn passed_on<K: SpatialMath>(
    k: &K,
    m: Model,
    x: Seq<Placement>,
    i: int,
    j: int,
    f: Motion,
    g: Motion,
) -> bool
    decreases i,
{
    if i == j {
        g == f
    } else if 0 < i < m.joints@.len() && 0 <= m.parent(i) < i {
        exists|h: Motion| #[trigger]
            call_ensures(K::force_to_parent, (k, x[i], f), h) && passed_on(k, m, x, m.parent(i), j, h, g)
    } else {
        false
    }
}

/// Whether `r` is the force along the direction `b` of joint `j` that moving the
/// composite body `i` along the direction `a` takes.
pub open spec fn coupling<K: SpatialMath>(
    k: &K,
    m: Model,
    x: Seq<Placement>,
    c: Seq<Inertia>,
    i: int,
    a: Motion,
    j: int,
    b: Motion,
    r: Real,
) -> bool {
    exists|f: Motion, g: Motion|
        {
            &&& #[trigger] call_ensures(K::inertia_times, (k, c[i], a), f)
            &&& #[trigger] passed_on(k, m, x, i, j, f, g)
            &&& call_ensures(K::dot, (k, b, g), r)
        }
}

/// The direction that belongs to the number `a` of the velocity, which joint `i` owns.
pub open spec fn direction(m: Model, i: int, a: int) -> Motion {
    m.kind(i).subspace()[a - m.v_idx@[i]]
}

/// Whether the pair of numbers `b` and `a` of the velocity, which joints `j` and `i`
/// own, is computed: `j` is on the way from `i` to the world, or is `i` itself and `b`
/// does not come first.
pub open spec fn computed(m: Model, i: int, a: int, j: int, b: int) -> bool {
    m.supports(j, i) && (i == j ==> b >= a)
}

/// Whether the entries at `(b, a)` and `(a, b)` are what they have to be, if joint `i`
/// owns `a` and joint `j` owns `b`.
pub open spec fn entry<K: SpatialMath>(
    k: &K,
    m: Model,
    x: Seq<Placement>,
    c: Seq<Inertia>,
    i: int,
    a: int,
    j: int,
    b: int,
    r: Matrix,
) -> bool {
    if computed(m, i, a, j, b) {
        &&& coupling(k, m, x, c, i, direction(m, i, a), j, direction(m, j, b), r.at(b, a))
        &&& r.at(a, b) == r.at(b, a)
    } else {
        !computed(m, j, b, i, a) ==> r.at(b, a) == Real::zero()
    }
}

/// Whether `r` couples the joints below `n` as the composite bodies `c` do.
pub open spec fn filled<K: SpatialMath>(
    k: &K,
    m: Model,
    x: Seq<Placement>,
    c: Seq<Inertia>,
    r: Matrix,
    n: int,
) -> bool {
    forall|i: int, a: int, j: int, b: int|
        #![trigger jacobian::owns(m, i, a), jacobian::owns(m, j, b)]
        0 < i < m.joints@.len() && 0 < j < m.joints@.len() && jacobian::owns(m, i, a) && jacobian::owns(m, j, b) ==> if i < n
            && j < n {
            entry(k, m, x, c, i, a, j, b, r)
        } else {
            r.at(b, a) == Real::zero()
        }
}

/// Whether `r` is the mass matrix for a configuration.
pub open spec fn mass_matrix<K: SpatialMath>(k: &K, m: Model, q: Seq<Real>, r: Matrix) -> bool {
    exists|x: Seq<Placement>, c: Seq<Inertia>|
        {
            &&& #[trigger] all_relative(k, m, q, x)
            &&& #[trigger] composite(k, m, x, c)
            &&& filled(k, m, x, c, r, m.joints@.len() as int)
        }
}

proof fn pass_further<K: SpatialMath>(
    k: &K,
    m: Model,
    x: Seq<Placement>,
    i: int,
    j: int,
    f: Motion,
    g: Motion,
    h: Motion,
)
    requires
        m.wf(),
        0 < j <= i < m.joints@.len(),
        passed_on(k, m, x, i, j, f, g),
        call_ensures(K::force_to_parent, (k, x[j], g), h),
    ensures
        passed_on(k, m, x, i, m.parent(j), f, h),
    decreases i,
{
    assert(m.joints@[j].parent < j);
    assert(m.joints@[i].parent < i);
    if i == j {
        assert(passed_on(k, m, x, m.parent(j), m.parent(j), h, h));
        assert(call_ensures(K::force_to_parent, (k, x[i], f), h));
    } else {
        let e = choose|e: Motion| #[trigger]
            call_ensures(K::force_to_parent, (k, x[i], f), e) && passed_on(
                k,
                m,
                x,
                m.parent(i),
                j,
                e,
                g,
            );
        passed_below(k, m, x, m.parent(i), j, e, g);
        pass_further(k, m, x, m.parent(i), j, e, g, h);
    }
}

proof fn passed_below<K: SpatialMath>(
    k: &K,
    m: Model,
    x: Seq<Placement>,
    i: int,
    j: int,
    f: Motion,
    g: Motion,
)
    requires
        passed_on(k, m, x, i, j, f, g),
    ensures
        j <= i,
    decreases i,
{
    if i != j {
        let h = choose|h: Motion| #[trigger]
            call_ensures(K::force_to_parent, (k, x[i], f), h) && passed_on(
                k,
                m,
                x,
                m.parent(i),
                j,
                h,
                g,
            );
        passed_below(k, m, x, m.parent(i), j, h, g);
    }
}

/// Whether the entry at `(r, c)` belongs to the block of the forces of joint `i` along the
/// directions of joint `j`.
pub open spec fn in_block(m: Model, i: int, j: int, r: int, c: int) -> bool {
    jacobian::owns(m, j, r) && jacobian::owns(m, i, c) && (i == j ==> r >= c)
}

/// Writes the block of the forces `f` of joint `i` along the directions of joint `j`, and
/// its mirror image.
fn write_block<K: SpatialMath>(
    k: &K,
    model: &Model,
    i: usize,
    j: usize,
    f: &Vec<Motion>,
    r: &mut Matrix,
)
    requires
        model.wf(),
        0 < j <= i < model.joints@.len(),
        f@.len() == model.kind(i as int).nv(),
        old(r).sized(model.nv as int, model.nv as int),
    ensures
        final(r).sized(model.nv as int, model.nv as int),
        forall|b: int, a: int|
            0 <= b < model.nv && 0 <= a < model.nv ==> if in_block(*model, i as int, j as int, b, a) {
                call_ensures(
                    K::dot,
                    (k, direction(*model, j as int, b), f@[a - model.v_idx@[i as int]]),
                    #[trigger] final(r).at(b, a),
                )
            } else if in_block(*model, i as int, j as int, a, b) {
                final(r).at(b, a) == final(r).at(a, b)
            } else {
                final(r).at(b, a) == old(r).at(b, a)
            },
{
    proof {
        model.ranges(i as int);
        model.ranges(j as int);
        if j < i {
            assert(model.v_idx@[j as int] + model.kind(j as int).nv() <= model.v_idx@[i as int]);
        }
    }
    let vi: usize = model.v_idx[i];
    let vj: usize = model.v_idx[j];
    let s = model.joints[j].joint_type.motion_subspace();
    let ni: usize = f.len();
    let nj: usize = s.len();
    let ghost start = *r;
    for c in 0..ni
        invariant
            model.wf(),
            0 < j <= i < model.joints@.len(),
            ni == f@.len(),
            nj == s@.len(),
            vi == model.v_idx@[i as int],
            vj == model.v_idx@[j as int],
            ni == model.kind(i as int).nv(),
            nj == model.kind(j as int).nv(),
            s@ == model.kind(j as int).subspace(),
            vi + ni <= model.nv,
            vj + nj <= model.nv,
            j < i ==> vj + nj <= vi,
            r.sized(model.nv as int, model.nv as int),
            start.sized(model.nv as int, model.nv as int),
            forall|b: int, a: int|
                0 <= b < model.nv && 0 <= a < model.nv ==> if in_block(*model, i as int, j as int, b, a) && a
                    < vi + c {
                    call_ensures(
                        K::dot,
                        (k, direction(*model, j as int, b), f@[a - vi]),
                        #[trigger] r.at(b, a),
                    )
                } else if in_block(*model, i as int, j as int, a, b) && b < vi + c {
                    r.at(b, a) == r.at(a, b)
                } else {
                    r.at(b, a) == start.at(b, a)
                },
    {
        let first: usize = if i == j {
            c
        } else {
            0
        };
        for d in first..nj
            invariant
                model.wf(),
                0 < j <= i < model.joints@.len(),
                ni == f@.len(),
                nj == s@.len(),
                c < ni,
                first == if i == j { c } else { 0 },
                vi == model.v_idx@[i as int],
                vj == model.v_idx@[j as int],
                ni == model.kind(i as int).nv(),
                nj == model.kind(j as int).nv(),
                s@ == model.kind(j as int).subspace(),
                vi + ni <= model.nv,
                vj + nj <= model.nv,
                j < i ==> vj + nj <= vi,
                r.sized(model.nv as int, model.nv as int),
                start.sized(model.nv as int, model.nv as int),
                forall|b: int, a: int|
                    0 <= b < model.nv && 0 <= a < model.nv ==> if in_block(
                        *model,
                        i as int,
                        j as int,
                        b,
                        a,
                    ) && (a < vi + c || (a == vi + c && b < vj + d)) {
                        call_ensures(
                            K::dot,
                            (k, direction(*model, j as int, b), f@[a - vi]),
                            #[trigger] r.at(b, a),
                        )
                    } else if in_block(*model, i as int, j as int, a, b) && (b < vi + c || (b == vi + c && a
                        < vj + d)) {
                        r.at(b, a) == r.at(a, b)
                    } else {
                        r.at(b, a) == start.at(b, a)
                    },
        {
            let x = k.dot(s[d], f[c]);
            let ghost before = *r;
            r.set(vj + d, vi + c, x);
            let ghost half = *r;
            r.set(vi + c, vj + d, x);
            assert forall|b: int, a: int|
                0 <= b < model.nv && 0 <= a < model.nv implies if in_block(
                *model,
                i as int,
                j as int,
                b,
                a,
            ) && (a < vi + c || (a == vi + c && b < vj + d + 1)) {
                call_ensures(
                    K::dot,
                    (k, direction(*model, j as int, b), f@[a - vi]),
                    #[trigger] r.at(b, a),
                )
            } else if in_block(*model, i as int, j as int, a, b) && (b < vi + c || (b == vi + c && a < vj
                + d + 1)) {
                r.at(b, a) == r.at(a, b)
            } else {
                r.at(b, a) == start.at(b, a)
            } by {
                assert(half.at(b, a) == if b == vj + d && a == vi + c { x } else { before.at(b, a) });
                assert(half.at(a, b) == if a == vj + d && b == vi + c { x } else { before.at(a, b) });
                assert(r.at(a, b) == if a == vi + c && b == vj + d { x } else { half.at(a, b) });
                assert(before.at(a, b) == before.at(a, b));
                assert(before.at(b, a) == before.at(b, a));
            }
        }
    }
}

/// Whether the pair of joints `i2` and `j2` is done, when the force of joint `i` has been
/// passed on down to `cur`.
spec fn settled(i: int, cur: int, i2: int, j2: int) -> bool {
    ||| i2 < i && j2 < i
    ||| i2 == i && cur < j2 <= i
    ||| j2 == i && cur < i2 <= i
}

/// Whether the entries of settled pairs are what they have to be and all others are zero.
spec fn underway<K: SpatialMath>(
    k: &K,
    m: Model,
    x: Seq<Placement>,
    c: Seq<Inertia>,
    r: Matrix,
    i: int,
    cur: int,
) -> bool {
    forall|i2: int, a: int, j2: int, b: int|
        #![trigger jacobian::owns(m, i2, a), jacobian::owns(m, j2, b)]
        0 < i2 < m.joints@.len() && 0 < j2 < m.joints@.len() && jacobian::owns(m, i2, a) && jacobian::owns(m, j2, b)
            ==> if settled(i, cur, i2, j2) {
            entry(k, m, x, c, i2, a, j2, b, r)
        } else {
            r.at(b, a) == Real::zero()
        }
}

proof fn block_settles<K: SpatialMath>(
    k: &K,
    m: Model,
    x: Seq<Placement>,
    c: Seq<Inertia>,
    before: Matrix,
    r: Matrix,
    i: int,
    cur: int,
    f0: Seq<Motion>,
    f: Seq<Motion>,
)
    requires
        m.wf(),
        0 < cur <= i < m.joints@.len(),
        m.supports(cur, i),
        underway(k, m, x, c, before, i, cur),
        f0.len() == m.kind(i).nv(),
        f.len() == f0.len(),
        forall|a: int|
            0 <= a < f0.len() ==> #[trigger] call_ensures(
                K::inertia_times,
                (k, c[i], m.kind(i).subspace()[a]),
                f0[a],
            ),
        forall|a: int| 0 <= a < f0.len() ==> #[trigger] passed_on(k, m, x, i, cur, f0[a], f[a]),
        forall|b: int, a: int|
            0 <= b < m.nv && 0 <= a < m.nv ==> if in_block(m, i, cur, b, a) {
                call_ensures(K::dot, (k, direction(m, cur, b), f[a - m.v_idx@[i]]), #[trigger] r.at(b, a))
            } else if in_block(m, i, cur, a, b) {
                r.at(b, a) == r.at(a, b)
            } else {
                r.at(b, a) == before.at(b, a)
            },
        forall|j: int| #[trigger]
            m.supports(j, i) <==> m.supports(j, cur) || (j > cur && m.supports(j, i)),
    ensures
        underway(k, m, x, c, r, i, m.parent(cur)),
{
    let p = m.parent(cur);
    assert(m.joints@[cur].parent < cur);
    assert forall|i2: int, a: int, j2: int, b: int|
        #![trigger jacobian::owns(m, i2, a), jacobian::owns(m, j2, b)]
        0 < i2 < m.joints@.len() && 0 < j2 < m.joints@.len() && jacobian::owns(m, i2, a) && jacobian::owns(
            m,
            j2,
            b,
        ) implies if settled(i, p, i2, j2) {
        entry(k, m, x, c, i2, a, j2, b, r)
    } else {
        r.at(b, a) == Real::zero()
    } by {
        jacobian::owners_differ(m, i2, i2, a);
        jacobian::owners_differ(m, j2, j2, b);
        assert(r.at(b, a) == r.at(b, a));
        assert(r.at(a, b) == r.at(a, b));
        if m.supports(i2, j2) {
            model::support_is_below(m, i2, j2);
        }
        if m.supports(j2, i2) {
            model::support_is_below(m, j2, i2);
        }
        if i2 == i && j2 == cur {
            if i != cur || b >= a {
                let w = a - m.v_idx@[i];
                assert(in_block(m, i, cur, b, a));
                assert(call_ensures(K::inertia_times, (k, c[i], m.kind(i).subspace()[w]), f0[w]));
                assert(passed_on(k, m, x, i, cur, f0[w], f[w]));
                assert(coupling(
                    k,
                    m,
                    x,
                    c,
                    i,
                    direction(m, i, a),
                    cur,
                    direction(m, cur, b),
                    r.at(b, a),
                ));
                if !in_block(m, i, cur, a, b) {
                    assert(r.at(a, b) == r.at(b, a));
                } else {
                    jacobian::owners_differ(m, cur, i, a);
                    assert(a == b);
                }
            }
        } else if j2 == i && i2 == cur {
            assert(!m.supports(i, cur) || i == cur);
        } else {
            if jacobian::owns(m, cur, b) && jacobian::owns(m, i, a) {
                jacobian::owners_differ(m, cur, j2, b);
                jacobian::owners_differ(m, i, i2, a);
            }
            if jacobian::owns(m, cur, a) && jacobian::owns(m, i, b) {
                jacobian::owners_differ(m, cur, i2, a);
                jacobian::owners_differ(m, i, j2, b);
            }
            assert(r.at(b, a) == before.at(b, a));
            assert(r.at(a, b) == before.at(a, b));
            if settled(i, cur, i2, j2) {
                assert(entry(k, m, x, c, i2, a, j2, b, before));
            } else {
                assert(before.at(b, a) == Real::zero());
                assert(before.at(a, b) == Real::zero()) by {
                    assert(!settled(i, cur, j2, i2));
                }
                if settled(i, p, i2, j2) {
                    if i2 == i {
                        assert(p < j2 < cur);
                        if m.supports(j2, i) {
                            assert(m.supports(j2, cur));
                            assert(m.supports(j2, p));
                            model::support_is_below(m, j2, p);
                        }
                    } else {
                        assert(p < i2 < cur);
                        if m.supports(i2, i) {
                            assert(m.supports(i2, cur));
                            assert(m.supports(i2, p));
                            model::support_is_below(m, i2, p);
                        }
                    }
                }
            }
        }
    }
}

/// Couples joint `i` with itself and with the joints on its way to the world.
fn write_joint<K: SpatialMath>(
    k: &K,
    model: &Model,
    x: &Vec<Placement>,
    c: &Vec<Inertia>,
    i: usize,
    r: &mut Matrix,
)
    requires
        model.wf(),
        x@.len() == model.joints@.len(),
        c@.len() == model.joints@.len(),
        0 < i < model.joints@.len(),
        old(r).sized(model.nv as int, model.nv as int),
        filled(k, *model, x@, c@, *old(r), i as int),
    ensures
        final(r).sized(model.nv as int, model.nv as int),
        filled(k, *model, x@, c@, *final(r), i + 1),
{
    let s = model.joints[i].joint_type.motion_subspace();
    let n: usize = s.len();
    let mut f: Vec<Motion> = Vec::new();
    for a in 0..n
        invariant
            n == s@.len(),
            i < c@.len(),
            f@.len() == a,
            forall|y: int|
                0 <= y < a ==> call_ensures(K::inertia_times, (k, c@[i as int], s@[y]), #[trigger] f@[y]),
    {
        f.push(k.inertia_times(c[i], s[a]));
    }
    let ghost f0 = f@;
    let mut cur: usize = i;
    proof {
        assert forall|a: int| 0 <= a < f0.len() implies #[trigger] passed_on(
            k,
            *model,
            x@,
            i as int,
            i as int,
            f0[a],
            f@[a],
        ) by {}
        assert forall|i2: int, a: int, j2: int, b: int|
            #![trigger jacobian::owns(*model, i2, a), jacobian::owns(*model, j2, b)]
            0 < i2 < model.joints@.len() && 0 < j2 < model.joints@.len() && jacobian::owns(*model, i2, a) && jacobian::owns(
                *model,
                j2,
                b,
            ) implies if settled(i as int, i as int, i2, j2) {
            entry(k, *model, x@, c@, i2, a, j2, b, *r)
        } else {
            r.at(b, a) == Real::zero()
        } by {}
        assert forall|j: int| #[trigger] model.supports(j, i as int) && j > i implies false by {
            model::support_is_below(*model, j, i as int);
        }
    }
    while cur > 0
        invariant
            model.wf(),
            x@.len() == model.joints@.len(),
            c@.len() == model.joints@.len(),
            0 < i < model.joints@.len(),
            cur <= i,
            n == model.kind(i as int).nv(),
            f0.len() == n,
            f@.len() == n,
            r.sized(model.nv as int, model.nv as int),
            cur > 0 ==> model.supports(cur as int, i as int),
            forall|j: int| #[trigger]
                model.supports(j, i as int) <==> model.supports(j, cur as int) || (j > cur
                    && model.supports(j, i as int)),
            forall|a: int|
                0 <= a < f0.len() ==> #[trigger] call_ensures(
                    K::inertia_times,
                    (k, c@[i as int], model.kind(i as int).subspace()[a]),
                    f0[a],
                ),
            forall|a: int|
                0 <= a < f0.len() ==> #[trigger] passed_on(
                    k,
                    *model,
                    x@,
                    i as int,
                    cur as int,
                    f0[a],
                    f@[a],
                ),
            underway(k, *model, x@, c@, *r, i as int, cur as int),
        decreases cur,
    {
        let ghost before = *r;
        let parent: usize = model.joints[cur].parent;
        write_block(k, model, i, cur, &f, r);
        proof {
            block_settles(k, *model, x@, c@, before, *r, i as int, cur as int, f0, f@);
        }
        let mut g: Vec<Motion> = Vec::new();
        for a in 0..n
            invariant
                model.wf(),
                n == f@.len(),
                n == f0.len(),
                0 < cur <= i < model.joints@.len(),
                x@.len() == model.joints@.len(),
                g@.len() == a,
                forall|y: int|
                    0 <= y < f0.len() ==> #[trigger] passed_on(
                        k,
                        *model,
                        x@,
                        i as int,
                        cur as int,
                        f0[y],
                        f@[y],
                    ),
                forall|y: int|
                    0 <= y < a ==> #[trigger] passed_on(
                        k,
                        *model,
                        x@,
                        i as int,
                        model.parent(cur as int),
                        f0[y],
                        g@[y],
                    ),
        {
            let ghost old_g = g@;
            let h = k.force_to_parent(x[cur], f[a]);
            proof {
                assert(passed_on(k, *model, x@, i as int, cur as int, f0[a as int], f@[a as int]));
                pass_further(
                    k,
                    *model,
                    x@,
                    i as int,
                    cur as int,
                    f0[a as int],
                    f@[a as int],
                    h,
                );
            }
            g.push(h);
            assert forall|y: int| 0 <= y < a + 1 implies #[trigger] passed_on(
                k,
                *model,
                x@,
                i as int,
                model.parent(cur as int),
                f0[y],
                g@[y],
            ) by {
                if y < a {
                    assert(passed_on(
                        k,
                        *model,
                        x@,
                        i as int,
                        model.parent(cur as int),
                        f0[y],
                        old_g[y],
                    ));
                }
            }
        }
        proof {
            assert(model.joints@[cur as int].parent < cur);
            assert forall|j: int| #[trigger] model.supports(j, i as int) <==> model.supports(
                j,
                parent as int,
            ) || (j > parent && model.supports(j, i as int)) by {
                if model.supports(j, cur as int) {
                    model::support_is_below(*model, j, cur as int);
                }
                if model.supports(j, parent as int) {
                    assert(model.supports(j, cur as int));
                }
            }
            if parent > 0 {
                assert(model.supports(parent as int, parent as int));
            }
        }
        f = g;
        cur = parent;
    }
    proof {
        assert forall|i2: int, a: int, j2: int, b: int|
            #![trigger jacobian::owns(*model, i2, a), jacobian::owns(*model, j2, b)]
            0 < i2 < model.joints@.len() && 0 < j2 < model.joints@.len() && jacobian::owns(*model, i2, a) && jacobian::owns(
                *model,
                j2,
                b,
            ) implies if i2 < i + 1 && j2 < i + 1 {
            entry(k, *model, x@, c@, i2, a, j2, b, *r)
        } else {
            r.at(b, a) == Real::zero()
        } by {}
    }
}

/// The mass matrix for a configuration.
pub fn crba<K: SpatialMath>(k: &K, model: &Model, q: &[Real]) -> (r: Matrix)
    requires
        model.wf(),
        q@.len() == model.nq,
    ensures
        r.sized(model.nv as int, model.nv as int),
        mass_matrix(k, *model, q@, r),
{
    let x = relative_placements(k, model, q);
    let c = composite_bodies(k, model, &x);
    let mut r = Matrix::zeros(model.nv, model.nv);
    let n: usize = model.joints.len();
    proof {
        assert forall|i: int, a: int, j: int, b: int|
            #![trigger jacobian::owns(*model, i, a), jacobian::owns(*model, j, b)]
            0 < i < model.joints@.len() && 0 < j < model.joints@.len() && jacobian::owns(*model, i, a) && jacobian::owns(
                *model,
                j,
                b,
            ) implies r.at(b, a) == Real::zero() by {
            jacobian::owners_differ(*model, i, i, a);
            jacobian::owners_differ(*model, j, j, b);
        }
    }
    for i in 1..n
        invariant
            n == model.joints@.len(),
            model.wf(),
            x@.len() == model.joints@.len(),
            c@.len() == model.joints@.len(),
            r.sized(model.nv as int, model.nv as int),
            filled(k, *model, x@, c@, r, i as int),
    {
        write_joint(k, model, &x, &c, i, &mut r);
    }
    assert(all_relative(k, *model, q@, x@));
    assert(composite(k, *model, x@, c@));
    r
}

/// Any number of the velocity belongs to a joint.
pub proof fn every_number_is_owned(m: Model, c: int, n: int) -> (j: int)
    requires
        m.wf(),
        0 <= n <= m.joints@.len(),
        0 <= c < crate::model::nv_before(m.joints@, n),
    ensures
        0 <= j < n,
        jacobian::owns(m, j, c),
    decreases n,
{
    m.ranges(n - 1);
    if c < crate::model::nv_before(m.joints@, n - 1) {
        every_number_is_owned(m, c, n - 1)
    } else {
        n - 1
    }
}

/// The mass matrix is symmetric.
pub proof fn mass_matrix_is_symmetric<K: SpatialMath>(k: &K, m: Model, q: Seq<Real>, r: Matrix)
    requires
        m.wf(),
        r.sized(m.nv as int, m.nv as int),
        mass_matrix(k, m, q, r),
    ensures
        r.symmetric(),
{
    let (x, c) = choose|x: Seq<Placement>, c: Seq<Inertia>|
        {
            &&& #[trigger] all_relative(k, m, q, x)
            &&& #[trigger] composite(k, m, x, c)
            &&& filled(k, m, x, c, r, m.joints@.len() as int)
        };
    assert forall|b: int, a: int| 0 <= b < r.height() && 0 <= a < r.height() implies #[trigger] r.at(b, a)
        == r.at(a, b) by {
        let j = every_number_is_owned(m, b, m.joints@.len() as int);
        let i = every_number_is_owned(m, a, m.joints@.len() as int);
        assert(m.kind(0).nv() == 0);
        assert(jacobian::owns(m, i, a) && jacobian::owns(m, j, b));
        assert(entry(k, m, x, c, i, a, j, b, r));
        assert(entry(k, m, x, c, j, b, i, a, r));
    }
}

} // verus!
