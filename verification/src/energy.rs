//! What the mass matrix is for: it gives the kinetic energy of all bodies.

use vstd::prelude::*;
use crate::algebra;
use crate::crba;
use crate::exact;
use crate::fk;
use crate::jacobian;
use crate::joint;
use crate::model;
use crate::rigid;
use crate::spatial;
use crate::data::Data;
use crate::matrix::Matrix;
use crate::model::Model;
use crate::number::Real;
use crate::spatial::{Inertia, Motion, Placement, SpatialMath};

verus! {

/// Twice the kinetic energy of body `i`, which moves with velocity `v`.
pub open spec fn twice_energy(m: Model, v: Seq<Motion>, i: int) -> real {
    if i <= 0 {
        0real
    } else {
        algebra::pair(rigid::num(v[i]), algebra::image(rigid::link(m.inertias@[i]), rigid::num(v[i])))
    }
}

/// The product of the velocities on either side of the mass matrix.
pub open spec fn quadratic(nv: int, v: spec_fn(int) -> real, r: Matrix) -> real {
    algebra::total2(nv, nv, |a: int, b: int| v(a) * exact::val(r.at(a, b)) * v(b))
}

// ── Velocities ──

/// The numbers of the velocity that joint `i` owns.
pub open spec fn rates(m: Model, v: spec_fn(int) -> real, i: int) -> spec_fn(int) -> real {
    |c: int| v(m.v_idx@[i] + c)
}

/// The velocity that joint `i` adds.
pub open spec fn added(m: Model, v: spec_fn(int) -> real, i: int) -> Seq<real> {
    algebra::blend(rigid::nums(m.kind(i).subspace()), rates(m, v, i), m.kind(i).nv() as int)
}

/// The velocity of the parent of body `i`, as seen from it.
pub open spec fn inherited(m: Model, x: Seq<Placement>, w: Seq<Seq<real>>, i: int) -> Seq<real> {
    algebra::image(rigid::frame(x[i]), w[m.parent(i)])
}

/// Whether the bodies move as their joints do.
pub open spec fn in_motion(m: Model, x: Seq<Placement>, v: spec_fn(int) -> real, w: Seq<Seq<real>>) -> bool {
    &&& x.len() == m.joints@.len()
    &&& w.len() == m.joints@.len()
    &&& w[0] == algebra::nought()
    &&& forall|i: int|
        1 <= i < m.joints@.len() ==> #[trigger] w[i] == algebra::plus(inherited(m, x, w, i), added(m, v, i))
}

/// What a joint adds up of its numbers is the velocity that it adds.
pub proof fn combination_is_added<K: SpatialMath>(k: &K, m: Model, v: Seq<Real>, i: int, own: Motion)
    requires
        rigid::exact_vectors(k),
        spatial::combination(k, m.kind(i).subspace(), v, m.v_idx@[i] as int, m.kind(i).nv() as int, own),
    ensures
        rigid::num(own) == added(m, rigid::list(v), i),
{
    let s = rigid::nums(m.kind(i).subspace());
    joint::subspace_has_nv_columns(m.kind(i));
    rigid::combination_is_a_blend(k, m.kind(i).subspace(), v, m.v_idx@[i] as int, m.kind(i).nv() as int, own);
    algebra::blend_same(
        s,
        s,
        |c: int| exact::val(v[m.v_idx@[i] as int + c]),
        rates(m, rigid::list(v), i),
        m.kind(i).nv() as int,
    );
}

/// Bodies move as their joints do.
pub proof fn bodies_are_in_motion<K: SpatialMath>(k: &K, m: Model, q: Seq<Real>, v: Seq<Real>, d: Data, x: Seq<Placement>)
    requires
        m.wf(),
        rigid::exact_arithmetic(k),
        d.fits(m),
        fk::all_placed(k, m, q, d),
        fk::moves_up_to(k, m, v, d, m.joints@.len() as int),
        crba::all_relative(k, m, q, x),
    ensures
        in_motion(m, x, rigid::list(v), rigid::nums(d.v@)),
{
    rigid::zero_is_nought();
    let (u, w) = (rigid::list(v), rigid::nums(d.v@));
    assert forall|i: int| 1 <= i < m.joints@.len() implies #[trigger] w[i] == algebra::plus(
        inherited(m, x, w, i),
        added(m, u, i),
    ) by {
        assert(m.joints@[i].parent < i);
        assert(fk::placed(k, m, q, d.joint_placements@, d.oMi@, i));
        assert(model::relative(k, m, q, i, x[i]));
        rigid::relative_repeats_itself(k, m, q, i, x[i], d.joint_placements@[i]);
        assert(fk::moves(k, m, v, d, i));
        let own = choose|own: Motion| #[trigger]
            fk::moving(k, m, v, d.joint_placements@[i], d.v@[m.parent(i)], i, own, d.v@[i]);
        combination_is_added(k, m, v, i, own);
        let t = choose|t: Motion| #[trigger]
            call_ensures(K::motion_to_child, (k, x[i], d.v@[m.parent(i)]), t) && call_ensures(
                K::motion_sum,
                (k, t, own),
                d.v@[i],
            );
    }
}

// ── Composite bodies ──

/// Twice the kinetic energy of bodies of the given inertias, the first `n` of them.
spec fn energies(w: Seq<Seq<real>>, c: Seq<Inertia>) -> spec_fn(int) -> real {
    |i: int|
        if i <= 0 {
            0real
        } else {
            algebra::pair(w[i], algebra::image(rigid::mat(c[i]), w[i]))
        }
}

/// What joint `i` adds to twice the energy, if it moves the composite body `c`.
spec fn gain(m: Model, x: Seq<Placement>, v: spec_fn(int) -> real, w: Seq<Seq<real>>, c: Inertia, i: int) -> real {
    let own = added(m, v, i);
    let f = algebra::image(rigid::mat(c), own);
    algebra::pair(own, f) + 2real * algebra::pair(f, inherited(m, x, w, i))
}

/// The sum of even inertias is even.
pub proof fn even_sum<K: SpatialMath>(k: &K, a: Inertia, b: Inertia, r: Inertia)
    requires
        rigid::exact_inertias(k),
        algebra::even(rigid::mat(a)),
        algebra::even(rigid::mat(b)),
        call_ensures(K::inertia_sum, (k, a, b), r),
    ensures
        algebra::even(rigid::mat(r)),
{
    assert forall|p: Seq<real>, q: Seq<real>| #[trigger]
        algebra::pair(p, algebra::image(rigid::mat(r), q)) == algebra::pair(q, algebra::image(rigid::mat(r), p)) by {
        algebra::pair_plus(p, algebra::image(rigid::mat(a), q), algebra::image(rigid::mat(b), q));
        algebra::pair_plus(q, algebra::image(rigid::mat(a), p), algebra::image(rigid::mat(b), p));
        assert(algebra::pair(p, algebra::image(rigid::mat(a), q)) == algebra::pair(
            q,
            algebra::image(rigid::mat(a), p),
        ));
        assert(algebra::pair(p, algebra::image(rigid::mat(b), q)) == algebra::pair(
            q,
            algebra::image(rigid::mat(b), p),
        ));
    }
}

/// An inertia that is seen from the parent pairs motions of the parent as it pairs them where it is.
pub proof fn moved_inertia_pairs<K: SpatialMath>(
    k: &K,
    x: Placement,
    i: Inertia,
    r: Inertia,
    p: Seq<real>,
    q: Seq<real>,
)
    requires
        rigid::exact_inertias(k),
        call_ensures(K::inertia_to_parent, (k, x, i), r),
    ensures
        algebra::pair(p, algebra::image(rigid::mat(r), q)) == algebra::pair(
            algebra::image(rigid::frame(x), p),
            algebra::image(rigid::mat(i), algebra::image(rigid::frame(x), q)),
        ),
{
    let f = algebra::image(rigid::mat(i), algebra::image(rigid::frame(x), q));
    algebra::image_flips(rigid::frame(x), f, p);
    algebra::pair_turns(p, algebra::image(algebra::flip(rigid::frame(x)), f));
    algebra::pair_turns(f, algebra::image(rigid::frame(x), p));
}

/// An even inertia is even as seen from the parent.
pub proof fn even_moved<K: SpatialMath>(k: &K, x: Placement, i: Inertia, r: Inertia)
    requires
        rigid::exact_inertias(k),
        algebra::even(rigid::mat(i)),
        call_ensures(K::inertia_to_parent, (k, x, i), r),
    ensures
        algebra::even(rigid::mat(r)),
{
    assert forall|p: Seq<real>, q: Seq<real>| #[trigger]
        algebra::pair(p, algebra::image(rigid::mat(r), q)) == algebra::pair(q, algebra::image(rigid::mat(r), p)) by {
        moved_inertia_pairs(k, x, i, r, p, q);
        moved_inertia_pairs(k, x, i, r, q, p);
        assert(algebra::pair(
            algebra::image(rigid::frame(x), p),
            algebra::image(rigid::mat(i), algebra::image(rigid::frame(x), q)),
        ) == algebra::pair(
            algebra::image(rigid::frame(x), q),
            algebra::image(rigid::mat(i), algebra::image(rigid::frame(x), p)),
        ));
    }
}

/// Whether the bodies from the first on have even inertias.
spec fn all_even(c: Seq<Inertia>, n: int) -> bool {
    forall|i: int| 1 <= i < n ==> algebra::even(rigid::mat(#[trigger] c[i]))
}

/// The inertia of a link is that of the body.
pub proof fn bodies_are_even<K: SpatialMath>(k: &K, m: Model, i: int, c: Inertia)
    requires
        m.wf(),
        rigid::exact_inertias(k),
        rigid::balanced(m),
        1 <= i < m.joints@.len(),
        call_ensures(K::body_inertia, (k, m.inertias@[i]), c),
    ensures
        algebra::even(rigid::mat(c)),
{
    rigid::links_are_even(m, i);
    assert forall|p: Seq<real>, q: Seq<real>| #[trigger]
        algebra::pair(p, algebra::image(rigid::mat(c), q)) == algebra::pair(q, algebra::image(rigid::mat(c), p)) by {
        assert(algebra::image(rigid::mat(c), q) == algebra::image(rigid::link(m.inertias@[i]), q));
        assert(algebra::image(rigid::mat(c), p) == algebra::image(rigid::link(m.inertias@[i]), p));
        assert(algebra::pair(p, algebra::image(rigid::link(m.inertias@[i]), q)) == algebra::pair(
            q,
            algebra::image(rigid::link(m.inertias@[i]), p),
        ));
    }
}

/// The energy of a sum of motions.
pub proof fn energy_of_a_sum(w: spec_fn(int, int) -> real, z: Seq<real>, own: Seq<real>)
    requires
        algebra::even(w),
    ensures
        algebra::pair(algebra::plus(z, own), algebra::image(w, algebra::plus(z, own))) == algebra::pair(
            z,
            algebra::image(w, z),
        ) + algebra::pair(own, algebra::image(w, own)) + 2real * algebra::pair(algebra::image(w, own), z),
{
    let both = algebra::plus(z, own);
    let (iz, io) = (algebra::image(w, z), algebra::image(w, own));
    algebra::image_plus(w, z, own);
    algebra::pair_plus(both, iz, io);
    algebra::pair_plus(iz, z, own);
    algebra::pair_plus(io, z, own);
    assert(algebra::pair(own, iz) == algebra::pair(z, io));
    algebra::pair_turns(z, io);
}

/// Merging the composite body `i` with its parent's takes from the energies what its joint adds.
proof fn lumping_takes_the_gain<K: SpatialMath>(
    k: &K,
    m: Model,
    x: Seq<Placement>,
    v: spec_fn(int) -> real,
    w: Seq<Seq<real>>,
    i: int,
    s: Seq<Inertia>,
    t: Seq<Inertia>,
)
    requires
        m.wf(),
        rigid::exact_inertias(k),
        in_motion(m, x, v, w),
        1 <= i < m.joints@.len(),
        s.len() == m.joints@.len(),
        all_even(s, i + 1),
        crba::lumped(k, m, x, i, s, t),
    ensures
        t.len() == s.len(),
        all_even(t, i),
        forall|j: int| i <= j < s.len() ==> #[trigger] t[j] == s[j],
        algebra::total(i + 1, energies(w, s)) == algebra::total(i, energies(w, t)) + gain(m, x, v, w, s[i], i),
{
    let p = m.parent(i);
    assert(m.joints@[i].parent < i);
    let (f, g) = (energies(w, s), energies(w, t));
    let z = inherited(m, x, w, i);
    let c = rigid::mat(s[i]);
    assert(algebra::even(rigid::mat(s[i])));
    energy_of_a_sum(c, z, added(m, v, i));
    assert(w[i] == algebra::plus(z, added(m, v, i)));
    assert(algebra::total(i + 1, f) == algebra::total(i, f) + f(i));
    if p > 0 {
        let moved = choose|moved: Inertia| #[trigger]
            call_ensures(K::inertia_to_parent, (k, x[i], s[i]), moved) && call_ensures(
                K::inertia_sum,
                (k, s[p], moved),
                t[p],
            );
        even_moved(k, x[i], s[i], moved);
        assert(algebra::even(rigid::mat(s[p])));
        even_sum(k, s[p], moved, t[p]);
        let above = w[p];
        moved_inertia_pairs(k, x[i], s[i], moved, above, above);
        algebra::pair_plus(above, algebra::image(rigid::mat(s[p]), above), algebra::image(rigid::mat(moved), above));
        assert(algebra::image(rigid::mat(t[p]), above) == algebra::plus(
            algebra::image(rigid::mat(s[p]), above),
            algebra::image(rigid::mat(moved), above),
        ));
        assert(g(p) == f(p) + algebra::pair(z, algebra::image(c, z)));
        assert forall|j: int| 0 <= j < i && j != p implies #[trigger] f(j) == g(j) by {
            assert(t[j] == s[j]);
        }
        algebra::total_change(i, p, f, g);
        assert forall|j: int| 1 <= j < i implies algebra::even(rigid::mat(#[trigger] t[j])) by {
            if j != p {
                assert(t[j] == s[j]);
                assert(algebra::even(rigid::mat(s[j])));
            }
        }
    } else {
        assert(p == 0);
        algebra::image_nought(rigid::frame(x[i]));
        assert(z == algebra::nought());
        algebra::pair_nought(algebra::image(c, z));
        algebra::total_same(i, f, g);
    }
}

/// What the joints from `i` on add to twice the energy.
spec fn gains(m: Model, x: Seq<Placement>, v: spec_fn(int) -> real, w: Seq<Seq<real>>, c: Seq<Inertia>) -> spec_fn(int) -> real {
    |i: int|
        if i <= 0 {
            0real
        } else {
            gain(m, x, v, w, c[i], i)
        }
}

proof fn energies_are_gains<K: SpatialMath>(
    k: &K,
    m: Model,
    x: Seq<Placement>,
    v: spec_fn(int) -> real,
    w: Seq<Seq<real>>,
    history: Seq<Seq<Inertia>>,
    c: Seq<Inertia>,
    i: int,
)
    requires
        m.wf(),
        rigid::exact_inertias(k),
        in_motion(m, x, v, w),
        crba::lumping(k, m, x, history, c),
        0 <= i < m.joints@.len(),
        history[i].len() == m.joints@.len(),
        all_even(history[i], i + 1),
    ensures
        algebra::total(i + 1, energies(w, history[i])) == algebra::total(i + 1, gains(m, x, v, w, c)),
        forall|j: int| i <= j < c.len() ==> #[trigger] c[j] == history[i][j],
        all_even(c, i + 1),
    decreases i,
{
    let f = energies(w, history[i]);
    let g = gains(m, x, v, w, c);
    if i > 0 {
        assert(crba::lumped(k, m, x, i, history[i], history[i - 1]));
        lumping_takes_the_gain(k, m, x, v, w, i, history[i], history[i - 1]);
        energies_are_gains(k, m, x, v, w, history, c, i - 1);
        assert(c[i] == history[i - 1][i]);
        assert(history[i - 1][i] == history[i][i]);
        assert(algebra::total(i + 1, g) == algebra::total(i, g) + g(i));
        assert forall|j: int| i <= j < c.len() implies #[trigger] c[j] == history[i][j] by {
            assert(c[j] == history[i - 1][j]);
            assert(history[i - 1][j] == history[i][j]);
        }
        assert forall|j: int| 1 <= j < i + 1 implies algebra::even(rigid::mat(#[trigger] c[j])) by {
            if j == i {
                assert(algebra::even(rigid::mat(history[i][i])));
            }
        }
    } else {
        assert(algebra::total(1, f) == algebra::total(0, f) + f(0));
        assert(algebra::total(1, g) == algebra::total(0, g) + g(0));
    }
}

// ── Entries of the matrix ──

/// The force `f` on body `i` as seen in the frame of body `j`, which is on the way to the world.
spec fn passed(m: Model, x: Seq<Placement>, i: int, j: int, f: Seq<real>) -> Seq<real>
    decreases i,
{
    if i != j && 0 < i && 0 <= m.parent(i) < i {
        passed(m, x, m.parent(i), j, algebra::image(algebra::flip(rigid::frame(x[i])), f))
    } else {
        f
    }
}

proof fn passing_is_exact<K: SpatialMath>(k: &K, m: Model, x: Seq<Placement>, i: int, j: int, f: Motion, g: Motion)
    requires
        rigid::exact_vectors(k),
        crba::passed_on(k, m, x, i, j, f, g),
    ensures
        rigid::num(g) == passed(m, x, i, j, rigid::num(f)),
    decreases i,
{
    if i != j {
        let h = choose|h: Motion| #[trigger]
            call_ensures(K::force_to_parent, (k, x[i], f), h) && crba::passed_on(k, m, x, m.parent(i), j, h, g);
        passing_is_exact(k, m, x, m.parent(i), j, h, g);
    }
}

/// A sum of forces is passed on as the sum of what is passed on of each.
proof fn passing_adds_up(
    m: Model,
    x: Seq<Placement>,
    i: int,
    j: int,
    s: Seq<Seq<real>>,
    t: Seq<Seq<real>>,
    u: spec_fn(int) -> real,
    n: int,
)
    requires
        n <= s.len(),
        forall|c: int| 0 <= c < n ==> #[trigger] t[c] == passed(m, x, i, j, s[c]),
    ensures
        passed(m, x, i, j, algebra::blend(s, u, n)) == algebra::blend(t, u, n),
    decreases i,
{
    if i != j && 0 < i && 0 <= m.parent(i) < i {
        let w = algebra::flip(rigid::frame(x[i]));
        let a = Seq::new(s.len(), |c: int| algebra::image(w, s[c]));
        algebra::blend_image(w, s, a, u, n);
        assert forall|c: int| 0 <= c < n implies #[trigger] t[c] == passed(m, x, m.parent(i), j, a[c]) by {
            assert(a[c] == algebra::image(w, s[c]));
        }
        passing_adds_up(m, x, m.parent(i), j, a, t, u, n);
    } else {
        algebra::blend_same(s, t, u, u, n);
    }
}

/// What joint `j` does of the work of the force `f` on body `l`.
spec fn work(m: Model, x: Seq<Placement>, v: spec_fn(int) -> real, l: int, f: Seq<real>) -> spec_fn(int) -> real {
    |j: int|
        if 0 < j && m.supports(j, l) {
            algebra::pair(added(m, v, j), passed(m, x, l, j, f))
        } else {
            0real
        }
}

/// The work of a force on a body is done by the joints that carry the body.
proof fn work_is_done_by_supports(m: Model, x: Seq<Placement>, v: spec_fn(int) -> real, w: Seq<Seq<real>>, l: int, f: Seq<real>, n: int)
    requires
        m.wf(),
        in_motion(m, x, v, w),
        0 <= l < n <= m.joints@.len(),
    ensures
        algebra::total(n, work(m, x, v, l, f)) == algebra::pair(f, w[l]),
    decreases l,
{
    let g = work(m, x, v, l, f);
    if l == 0 {
        assert forall|j: int| 0 <= j < n implies #[trigger] g(j) == 0real by {}
        algebra::total_zero(n, g);
        algebra::pair_nought(f);
    } else {
        let p = m.parent(l);
        assert(m.joints@[l].parent < l);
        let a = rigid::frame(x[l]);
        let h = algebra::image(algebra::flip(a), f);
        let above = work(m, x, v, p, h);
        work_is_done_by_supports(m, x, v, w, p, h, n);
        assert forall|j: int| 0 <= j < n && j != l implies #[trigger] above(j) == g(j) by {
            assert(m.supports(j, l) == m.supports(j, p));
        }
        assert(above(l) == 0real) by {
            if m.supports(l, p) {
                model::support_is_below(m, l, p);
            }
        }
        algebra::total_change(n, l, above, g);
        assert(g(l) == algebra::pair(added(m, v, l), f));
        assert(w[l] == algebra::plus(inherited(m, x, w, l), added(m, v, l)));
        algebra::pair_plus(f, inherited(m, x, w, l), added(m, v, l));
        algebra::image_flips(a, f, w[p]);
        algebra::pair_turns(f, added(m, v, l));
    }
}

/// The entries of the mass matrix are what moving the composite body of one joint takes along another
/// that carries it, and they are the same by row and by column.
proof fn entries_are_couplings<K: SpatialMath>(
    k: &K,
    m: Model,
    x: Seq<Placement>,
    c: Seq<Inertia>,
    r: Matrix,
    i: int,
    a: int,
    j: int,
    b: int,
)
    requires
        m.wf(),
        rigid::exact_arithmetic(k),
        all_even(c, m.joints@.len() as int),
        c.len() == m.joints@.len(),
        crba::filled(k, m, x, c, r, m.joints@.len() as int),
        0 < i < m.joints@.len(),
        0 < j < m.joints@.len(),
        jacobian::owns(m, i, a),
        jacobian::owns(m, j, b),
    ensures
        exact::val(r.at(a, b)) == exact::val(r.at(b, a)),
        m.supports(j, i) ==> exact::val(r.at(b, a)) == algebra::pair(
            rigid::num(crba::direction(m, j, b)),
            passed(m, x, i, j, algebra::image(rigid::mat(c[i]), rigid::num(crba::direction(m, i, a)))),
        ),
        !m.supports(j, i) && !m.supports(i, j) ==> exact::val(r.at(b, a)) == 0real,
{
    let (da, db) = (crba::direction(m, i, a), crba::direction(m, j, b));
    assert(crba::entry(k, m, x, c, i, a, j, b, r));
    assert(crba::entry(k, m, x, c, j, b, i, a, r));
    exact::signs_are_of_values(Real::zero());
    assert(algebra::even(rigid::mat(c[i])));
    if crba::computed(m, i, a, j, b) {
        coupling_is_exact(k, m, x, c, i, da, j, db, r.at(b, a));
    } else if m.supports(j, i) {
        assert(i == j && b < a);
        assert(crba::computed(m, j, b, i, a));
        coupling_is_exact(k, m, x, c, j, db, i, da, r.at(a, b));
        assert(algebra::pair(rigid::num(da), algebra::image(rigid::mat(c[i]), rigid::num(db))) == algebra::pair(
            rigid::num(db),
            algebra::image(rigid::mat(c[i]), rigid::num(da)),
        ));
    }
}

proof fn coupling_is_exact<K: SpatialMath>(
    k: &K,
    m: Model,
    x: Seq<Placement>,
    c: Seq<Inertia>,
    i: int,
    a: Motion,
    j: int,
    b: Motion,
    r: Real,
)
    requires
        rigid::exact_arithmetic(k),
        crba::coupling(k, m, x, c, i, a, j, b, r),
    ensures
        exact::val(r) == algebra::pair(
            rigid::num(b),
            passed(m, x, i, j, algebra::image(rigid::mat(c[i]), rigid::num(a))),
        ),
{
    let (f, g) = choose|f: Motion, g: Motion|
        {
            &&& #[trigger] call_ensures(K::inertia_times, (k, c[i], a), f)
            &&& #[trigger] crba::passed_on(k, m, x, i, j, f, g)
            &&& call_ensures(K::dot, (k, b, g), r)
        };
    passing_is_exact(k, m, x, i, j, f, g);
}

/// The part of the product of the velocities and the matrix that joints `i` and `j` have.
spec fn block(m: Model, v: spec_fn(int) -> real, r: Matrix) -> spec_fn(int, int) -> real {
    |i: int, j: int|
        algebra::total(
            m.kind(i).nv() as int,
            |s: int|
                algebra::total(
                    m.kind(j).nv() as int,
                    |t: int|
                        v(m.v_idx@[i] + s) * exact::val(r.at(m.v_idx@[i] + s, m.v_idx@[j] + t))
                            * v(m.v_idx@[j] + t),
                ),
        )
}

/// Two joints of which one carries the other have the work of the velocity of the one against the force
/// that moves the composite body of the other.
proof fn block_is_work<K: SpatialMath>(
    k: &K,
    m: Model,
    x: Seq<Placement>,
    v: spec_fn(int) -> real,
    c: Seq<Inertia>,
    r: Matrix,
    i: int,
    j: int,
)
    requires
        m.wf(),
        rigid::exact_arithmetic(k),
        all_even(c, m.joints@.len() as int),
        c.len() == m.joints@.len(),
        crba::filled(k, m, x, c, r, m.joints@.len() as int),
        0 < i < m.joints@.len(),
        0 < j < m.joints@.len(),
    ensures
        m.supports(j, i) ==> block(m, v, r)(i, j) == algebra::pair(
            added(m, v, j),
            passed(m, x, i, j, algebra::image(rigid::mat(c[i]), added(m, v, i))),
        ),
        !m.supports(j, i) && !m.supports(i, j) ==> block(m, v, r)(i, j) == 0real,
{
    let (ni, nj) = (m.kind(i).nv() as int, m.kind(j).nv() as int);
    let (vi, vj) = (m.v_idx@[i] as int, m.v_idx@[j] as int);
    let (si, sj) = (rigid::nums(m.kind(i).subspace()), rigid::nums(m.kind(j).subspace()));
    let (ui, uj) = (rates(m, v, i), rates(m, v, j));
    let w = rigid::mat(c[i]);
    let forces = Seq::new(si.len(), |s: int| algebra::image(w, si[s]));
    let there = Seq::new(si.len(), |s: int| passed(m, x, i, j, forces[s]));
    joint::subspace_has_nv_columns(m.kind(i));
    joint::subspace_has_nv_columns(m.kind(j));
    let outer = |s: int|
        algebra::total(
            nj,
            |t: int| v(vi + s) * exact::val(r.at(vi + s, vj + t)) * v(vj + t),
        );
    let result = |s: int| ui(s) * algebra::pair(there[s], added(m, v, j));
    assert forall|s: int| 0 <= s < ni implies #[trigger] outer(s) == if m.supports(j, i) {
        result(s)
    } else if !m.supports(i, j) {
        0real
    } else {
        outer(s)
    } by {
        let inner = |t: int| v(vi + s) * exact::val(r.at(vi + s, vj + t)) * v(vj + t);
        if m.supports(j, i) {
            let plain = |t: int| uj(t) * algebra::pair(sj[t], there[s]);
            assert forall|t: int| 0 <= t < nj implies #[trigger] inner(t) == ui(s) * plain(t) by {
                assert(jacobian::owns(m, i, vi + s));
                assert(jacobian::owns(m, j, vj + t));
                entries_are_couplings(k, m, x, c, r, i, vi + s, j, vj + t);
                let (p, e, o) = (ui(s), algebra::pair(sj[t], there[s]), uj(t));
                assert(forces[s] == algebra::image(w, si[s]));
                assert(p * e * o == p * (o * e)) by (nonlinear_arith);
            }
            algebra::total_times(nj, ui(s), plain, inner);
            algebra::blend_pairs(sj, uj, nj, there[s]);
            algebra::pair_turns(there[s], added(m, v, j));
        } else if !m.supports(i, j) {
            assert forall|t: int| 0 <= t < nj implies #[trigger] inner(t) == 0real by {
                assert(jacobian::owns(m, i, vi + s));
                assert(jacobian::owns(m, j, vj + t));
                entries_are_couplings(k, m, x, c, r, i, vi + s, j, vj + t);
                let (p, o) = (ui(s), uj(t));
                assert(p * 0real * o == 0real) by (nonlinear_arith);
            }
            algebra::total_zero(nj, inner);
        }
    }
    assert(block(m, v, r)(i, j) == algebra::total(ni, outer));
    if m.supports(j, i) {
        algebra::total_same(ni, outer, result);
        algebra::blend_pairs(there, ui, ni, added(m, v, j));
        passing_adds_up(m, x, i, j, forces, there, ui, ni);
        algebra::blend_image(w, si, forces, ui, ni);
        algebra::pair_turns(algebra::blend(there, ui, ni), added(m, v, j));
    } else if !m.supports(i, j) {
        algebra::total_zero(ni, outer);
    }
}

/// Two joints have the same part of the product in either order.
proof fn blocks_are_even<K: SpatialMath>(
    k: &K,
    m: Model,
    x: Seq<Placement>,
    v: spec_fn(int) -> real,
    c: Seq<Inertia>,
    r: Matrix,
    i: int,
    j: int,
)
    requires
        m.wf(),
        rigid::exact_arithmetic(k),
        all_even(c, m.joints@.len() as int),
        c.len() == m.joints@.len(),
        crba::filled(k, m, x, c, r, m.joints@.len() as int),
        0 <= i < m.joints@.len(),
        0 <= j < m.joints@.len(),
    ensures
        block(m, v, r)(i, j) == block(m, v, r)(j, i),
        i == 0 ==> block(m, v, r)(i, j) == 0real,
{
    let (ni, nj) = (m.kind(i).nv() as int, m.kind(j).nv() as int);
    let (vi, vj) = (m.v_idx@[i] as int, m.v_idx@[j] as int);
    let f = |s: int, t: int| v(vi + s) * exact::val(r.at(vi + s, vj + t)) * v(vj + t);
    let g = |t: int, s: int| v(vj + t) * exact::val(r.at(vj + t, vi + s)) * v(vi + s);
    let h = |t: int, s: int| f(s, t);
    algebra::total_swap(ni, nj, f);
    let (rows, columns) = (|t: int| algebra::total(ni, |s: int| h(t, s)), |t: int| algebra::total(ni, |s: int| g(t, s)));
    assert forall|t: int| 0 <= t < nj implies #[trigger] rows(t) == columns(t) by {
        let (a, b) = (|s: int| h(t, s), |s: int| g(t, s));
        assert forall|s: int| 0 <= s < ni implies #[trigger] a(s) == b(s) by {
            if i > 0 && j > 0 {
                assert(jacobian::owns(m, i, vi + s));
                assert(jacobian::owns(m, j, vj + t));
                entries_are_couplings(k, m, x, c, r, i, vi + s, j, vj + t);
            }
            let (p, e, o) = (v(vi + s), exact::val(r.at(vi + s, vj + t)), v(vj + t));
            assert(p * e * o == o * e * p) by (nonlinear_arith);
        }
        algebra::total_same(ni, a, b);
    }
    algebra::total_same(nj, rows, columns);
    assert(block(m, v, r)(i, j) == algebra::total2(ni, nj, f)) by {
        let one = |s: int| algebra::total(nj, |t: int| f(s, t));
        let other = |s: int|
            algebra::total(
                nj,
                |t: int| v(vi + s) * exact::val(r.at(vi + s, vj + t)) * v(vj + t),
            );
        assert forall|s: int| 0 <= s < ni implies #[trigger] one(s) == other(s) by {
            algebra::total_same(
                nj,
                |t: int| f(s, t),
                |t: int| v(vi + s) * exact::val(r.at(vi + s, vj + t)) * v(vj + t),
            );
        }
        algebra::total_same(ni, one, other);
    }
    assert(block(m, v, r)(j, i) == algebra::total2(nj, ni, g)) by {
        let one = |t: int| algebra::total(ni, |s: int| g(t, s));
        let other = |t: int|
            algebra::total(
                ni,
                |s: int| v(vj + t) * exact::val(r.at(vj + t, vi + s)) * v(vi + s),
            );
        assert forall|t: int| 0 <= t < nj implies #[trigger] one(t) == other(t) by {
            algebra::total_same(
                ni,
                |s: int| g(t, s),
                |s: int| v(vj + t) * exact::val(r.at(vj + t, vi + s)) * v(vi + s),
            );
        }
        algebra::total_same(nj, one, other);
    }
    assert(algebra::total2(nj, ni, h) == algebra::total(nj, rows));
    assert(algebra::total2(nj, ni, g) == algebra::total(nj, columns));
    if i == 0 {
        assert(m.kind(0) == joint::JointType::Fixed);
    }
}

/// The numbers of the velocity can be summed joint by joint.
pub proof fn total_by_joints(m: Model, n: int, f: spec_fn(int) -> real)
    requires
        m.wf(),
        0 <= n <= m.joints@.len(),
    ensures
        algebra::total(model::nv_before(m.joints@, n), f) == algebra::total(
            n,
            |i: int| algebra::total(m.kind(i).nv() as int, |t: int| f(m.v_idx@[i] + t)),
        ),
    decreases n,
{
    let g = |i: int| algebra::total(m.kind(i).nv() as int, |t: int| f(m.v_idx@[i] + t));
    if n > 0 {
        total_by_joints(m, n - 1, f);
        model::before_is_monotone(m.joints@, 0, n - 1);
        let at = model::nv_before(m.joints@, n - 1);
        let nv = m.kind(n - 1).nv() as int;
        algebra::total_splits(at, nv, f);
        assert(m.v_idx@[n - 1] == at);
        algebra::total_same(nv, |t: int| f(at + t), |t: int| f(m.v_idx@[n - 1] + t));
        assert(algebra::total(n, g) == algebra::total(n - 1, g) + g(n - 1));
    }
}

proof fn quadratic_by_joints(m: Model, v: spec_fn(int) -> real, r: Matrix)
    requires
        m.wf(),
    ensures
        quadratic(m.nv as int, v, r) == algebra::total2(
            m.joints@.len() as int,
            m.joints@.len() as int,
            block(m, v, r),
        ),
{
    let n = m.joints@.len() as int;
    let nv = m.nv as int;
    let f = |a: int, b: int| v(a) * exact::val(r.at(a, b)) * v(b);
    let by_number = |a: int| algebra::total(nv, |b: int| f(a, b));
    let part = |a: int, j: int| algebra::total(m.kind(j).nv() as int, |t: int| f(a, m.v_idx@[j] + t));
    let by_joint = |a: int| algebra::total(n, |j: int| part(a, j));
    assert forall|a: int| 0 <= a < nv implies #[trigger] by_number(a) == by_joint(a) by {
        total_by_joints(m, n, |b: int| f(a, b));
        let one = |j: int| algebra::total(m.kind(j).nv() as int, |t: int| (|b: int| f(a, b))(m.v_idx@[j] + t));
        let other = |j: int| part(a, j);
        assert forall|j: int| 0 <= j < n implies #[trigger] one(j) == other(j) by {
            algebra::total_same(
                m.kind(j).nv() as int,
                |t: int| (|b: int| f(a, b))(m.v_idx@[j] + t),
                |t: int| f(a, m.v_idx@[j] + t),
            );
        }
        algebra::total_same(n, one, other);
    }
    algebra::total_same(nv, by_number, by_joint);
    total_by_joints(m, n, by_joint);
    let rows = |i: int| algebra::total(m.kind(i).nv() as int, |s: int| by_joint(m.v_idx@[i] + s));
    let blocks = |i: int| algebra::total(n, |j: int| block(m, v, r)(i, j));
    assert forall|i: int| 0 <= i < n implies #[trigger] rows(i) == blocks(i) by {
        let ni = m.kind(i).nv() as int;
        let g = |s: int, j: int| part(m.v_idx@[i] + s, j);
        algebra::total_swap(ni, n, g);
        let one = |s: int| by_joint(m.v_idx@[i] + s);
        let other = |s: int| algebra::total(n, |j: int| g(s, j));
        assert forall|s: int| 0 <= s < ni implies #[trigger] one(s) == other(s) by {
            algebra::total_same(n, |j: int| part(m.v_idx@[i] + s, j), |j: int| g(s, j));
        }
        algebra::total_same(ni, one, other);
        let h = |j: int, s: int| g(s, j);
        let column = |j: int| algebra::total(ni, |s: int| h(j, s));
        let cell = |j: int| block(m, v, r)(i, j);
        assert forall|j: int| 0 <= j < n implies #[trigger] column(j) == cell(j) by {
            let nj = m.kind(j).nv() as int;
            let p = |s: int| h(j, s);
            let o = |s: int|
                algebra::total(
                    nj,
                    |t: int|
                        v(m.v_idx@[i] + s) * exact::val(r.at(m.v_idx@[i] + s, m.v_idx@[j] + t))
                            * v(m.v_idx@[j] + t),
                );
            assert forall|s: int| 0 <= s < ni implies #[trigger] p(s) == o(s) by {
                algebra::total_same(
                    nj,
                    |t: int| f(m.v_idx@[i] + s, m.v_idx@[j] + t),
                    |t: int|
                        v(m.v_idx@[i] + s) * exact::val(r.at(m.v_idx@[i] + s, m.v_idx@[j] + t))
                            * v(m.v_idx@[j] + t),
                );
            }
            algebra::total_same(ni, p, o);
        }
        algebra::total_same(n, column, cell);
    }
    algebra::total_same(n, rows, blocks);
}

/// Twice the kinetic energy of body `i`, which moves with the values `w`.
pub open spec fn twice_energy_at(m: Model, w: Seq<Seq<real>>, i: int) -> real {
    if i <= 0 {
        0real
    } else {
        algebra::pair(w[i], algebra::image(rigid::link(m.inertias@[i]), w[i]))
    }
}

/// The product of velocities and mass matrix is the kinetic energy of bodies that move with the velocities.
pub proof fn quadratic_is_energy<K: SpatialMath>(
    k: &K,
    m: Model,
    x: Seq<Placement>,
    c: Seq<Inertia>,
    v: spec_fn(int) -> real,
    w: Seq<Seq<real>>,
    r: Matrix,
)
    requires
        m.wf(),
        rigid::exact_arithmetic(k),
        rigid::balanced(m),
        crba::composite(k, m, x, c),
        crba::filled(k, m, x, c, r, m.joints@.len() as int),
        in_motion(m, x, v, w),
    ensures
        quadratic(m.nv as int, v, r) == algebra::total(m.joints@.len() as int, |i: int| twice_energy_at(m, w, i)),
{
    let history = choose|history: Seq<Seq<Inertia>>| #[trigger] crba::lumping(k, m, x, history, c);
    let n = m.joints@.len() as int;
    let single = history[n - 1];
    assert forall|i: int| 1 <= i < n implies algebra::even(rigid::mat(#[trigger] single[i])) by {
        bodies_are_even(k, m, i, single[i]);
    }
    energies_are_gains(k, m, x, v, w, history, c, n - 1);
    let ones = |i: int| twice_energy_at(m, w, i);
    assert forall|i: int| 0 <= i < n implies #[trigger] ones(i) == energies(w, single)(i) by {
        if i > 0 {
            assert(call_ensures(K::body_inertia, (k, m.inertias@[i]), single[i]));
            assert(algebra::image(rigid::mat(single[i]), w[i]) == algebra::image(
                rigid::link(m.inertias@[i]),
                w[i],
            ));
        }
    }
    algebra::total_same(n, ones, energies(w, single));
    quadratic_by_joints(m, v, r);
    let f = block(m, v, r);
    assert forall|i: int, j: int| 0 <= i < n && 0 <= j < n implies #[trigger] f(i, j) == f(j, i) by {
        blocks_are_even(k, m, x, v, c, r, i, j);
    }
    algebra::total_of_square(n, f);
    let side = |i: int| f(i, i) + 2real * algebra::total(i, |j: int| f(i, j));
    let g = gains(m, x, v, w, c);
    assert forall|i: int| 0 <= i < n implies #[trigger] side(i) == g(i) by {
        if i == 0 {
            blocks_are_even(k, m, x, v, c, r, 0, 0);
        } else {
            let p = m.parent(i);
            assert(m.joints@[i].parent < i);
            let own = added(m, v, i);
            let force = algebra::image(rigid::mat(c[i]), own);
            let back = algebra::image(algebra::flip(rigid::frame(x[i])), force);
            let parts = work(m, x, v, p, back);
            let row = |j: int| f(i, j);
            block_is_work(k, m, x, v, c, r, i, i);
            assert forall|j: int| 0 <= j < i implies #[trigger] row(j) == parts(j) by {
                if j == 0 {
                    blocks_are_even(k, m, x, v, c, r, 0, i);
                } else {
                    block_is_work(k, m, x, v, c, r, i, j);
                    assert(m.supports(j, i) == m.supports(j, p));
                    if m.supports(i, j) {
                        model::support_is_below(m, i, j);
                    }
                }
            }
            algebra::total_same(i, row, parts);
            work_is_done_by_supports(m, x, v, w, p, back, i);
            algebra::image_flips(rigid::frame(x[i]), force, w[p]);
        }
    }
    algebra::total_same(n, side, g);
}

/// Half of the velocities times the mass matrix times the velocities is the kinetic energy of all bodies,
/// whatever joints attach them: the mass matrix of a configuration, and the velocities of the bodies for
/// the same configuration and any velocities of the joints.
pub proof fn mass_matrix_gives_the_kinetic_energy<K: SpatialMath>(
    k: &K,
    m: Model,
    q: Seq<Real>,
    v: Seq<Real>,
    r: Matrix,
    d: Data,
)
    requires
        m.wf(),
        rigid::exact_arithmetic(k),
        rigid::balanced(m),
        crba::mass_matrix(k, m, q, r),
        d.fits(m),
        fk::all_placed(k, m, q, d),
        fk::moves_up_to(k, m, v, d, m.joints@.len() as int),
    ensures
        quadratic(m.nv as int, rigid::list(v), r) == algebra::total(
            m.joints@.len() as int,
            |i: int| twice_energy(m, d.v@, i),
        ),
{
    let (x, c) = choose|x: Seq<Placement>, c: Seq<Inertia>|
        {
            &&& #[trigger] crba::all_relative(k, m, q, x)
            &&& #[trigger] crba::composite(k, m, x, c)
            &&& crba::filled(k, m, x, c, r, m.joints@.len() as int)
        };
    let w = rigid::nums(d.v@);
    bodies_are_in_motion(k, m, q, v, d, x);
    quadratic_is_energy(k, m, x, c, rigid::list(v), w, r);
    algebra::total_same(
        m.joints@.len() as int,
        |i: int| twice_energy_at(m, w, i),
        |i: int| twice_energy(m, d.v@, i),
    );
}

} // verus!
