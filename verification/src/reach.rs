//! What Jacobians are for: they give the velocities of points.

use vstd::prelude::*;
use crate::algebra;
use crate::energy;
use crate::exact;
use crate::fk;
use crate::frames;
use crate::jacobian;
use crate::joint;
use crate::model;
use crate::rigid;
use crate::crba;
use crate::data::Data;
use crate::frames::Frame;
use crate::model::Model;
use crate::number::{Real, Vector3};
use crate::spatial::{Motion, Placement, SpatialMath};

verus! {

/// What the motion of the frame placed at `x` is at the point `target` of the world, by row and column:
/// the angular part turned into the world, and the velocity of the point that moves with the frame.
pub open spec fn sight(x: Placement, target: Vector3) -> spec_fn(int, int) -> real {
    let (t, p) = (target, x.translation);
    let (lx, ly, lz) = (
        exact::val(t.x) - exact::val(p.x),
        exact::val(t.y) - exact::val(p.y),
        exact::val(t.z) - exact::val(p.z),
    );
    |r: int, c: int|
        if r < 3 && c < 3 {
            rigid::turn(x, r, c)
        } else if r >= 3 && c >= 3 {
            rigid::turn(x, r - 3, c - 3)
        } else if r >= 3 {
            -algebra::total(3, |s: int| rigid::skew(lx, ly, lz, r - 3, s) * rigid::turn(x, s, c))
        } else {
            0real
        }
}

/// Whether columns of Jacobians are computed exactly, or not at all.
pub open spec fn exact_columns<K: SpatialMath>(k: &K) -> bool {
    forall|x: Placement, s: Motion, t: Vector3, r: Motion| #[trigger]
        call_ensures(K::jacobian_column, (k, x, s, t), r) ==> rigid::num(r) == algebra::image(
            sight(x, t),
            rigid::num(s),
        )
}

/// Whether placements are rigid: a motion is the same at every point, whether it is that of a frame or that
/// of another one placed in it, as seen from there.
pub open spec fn rigid_placements<K: SpatialMath>(k: &K) -> bool {
    forall|a: Placement, b: Placement, r: Placement, t: Vector3, v: Seq<real>|
        #![trigger call_ensures(K::compose, (k, a, b), r), algebra::image(sight(r, t), algebra::image(rigid::frame(b), v))]
        call_ensures(K::compose, (k, a, b), r) ==> algebra::image(
            sight(r, t),
            algebra::image(rigid::frame(b), v),
        ) == algebra::image(sight(a, t), v)
}

/// The `t`-th numbers of the columns, each times its velocity.
spec fn weighed(v: Seq<Real>, jac: Seq<Motion>, t: int) -> spec_fn(int) -> real {
    |c: int| exact::val(v[c]) * rigid::nums(jac)[c][t]
}

/// What joint `i` adds to the motion at the point, if it carries body `l`.
spec fn part(m: Model, abs: Seq<Placement>, target: Vector3, v: Seq<Real>, l: int, t: int) -> spec_fn(int) -> real {
    |i: int|
        if 0 < i && m.supports(i, l) {
            algebra::image(sight(abs[i], target), energy::added(m, rigid::list(v), i))[t]
        } else {
            0real
        }
}

/// The motion of a body at a point is what the joints that carry it add.
proof fn motion_is_added_by_supports<K: SpatialMath>(
    k: &K,
    m: Model,
    q: Seq<Real>,
    d: Data,
    target: Vector3,
    v: Seq<Real>,
    l: int,
    t: int,
    n: int,
)
    requires
        m.wf(),
        rigid_placements(k),
        d.fits(m),
        fk::all_placed(k, m, q, d),
        energy::in_motion(m, d.joint_placements@, rigid::list(v), rigid::nums(d.v@)),
        0 <= l < n <= m.joints@.len(),
        0 <= t < 6,
    ensures
        algebra::total(n, part(m, d.oMi@, target, v, l, t)) == algebra::image(
            sight(d.oMi@[l], target),
            rigid::num(d.v@[l]),
        )[t],
    decreases l,
{
    let abs = d.oMi@;
    let g = part(m, abs, target, v, l, t);
    if l == 0 {
        assert forall|j: int| 0 <= j < n implies #[trigger] g(j) == 0real by {}
        algebra::total_zero(n, g);
        algebra::image_nought(sight(abs[0], target));
    } else {
        let p = m.parent(l);
        assert(m.joints@[l].parent < l);
        let above = part(m, abs, target, v, p, t);
        motion_is_added_by_supports(k, m, q, d, target, v, p, t, n);
        assert forall|j: int| 0 <= j < n && j != l implies #[trigger] above(j) == g(j) by {
            assert(m.supports(j, l) == m.supports(j, p));
        }
        assert(above(l) == 0real) by {
            if m.supports(l, p) {
                model::support_is_below(m, l, p);
            }
        }
        algebra::total_change(n, l, above, g);
        let x = d.joint_placements@;
        assert(fk::placed(k, m, q, x, abs, l));
        let z = energy::inherited(m, x, rigid::nums(d.v@), l);
        assert(rigid::nums(d.v@)[l] == algebra::plus(z, energy::added(m, rigid::list(v), l)));
        algebra::image_plus(sight(abs[l], target), z, energy::added(m, rigid::list(v), l));
        assert(algebra::image(sight(abs[l], target), z) == algebra::image(
            sight(abs[p], target),
            rigid::num(d.v@[p]),
        ));
    }
}

/// The Jacobian of a point on a body, times the velocities of the joints, is the motion of the body at the
/// point, if the joints that are left out stand still.
pub proof fn jacobian_gives_the_velocity<K: SpatialMath>(
    k: &K,
    m: Model,
    q: Seq<Real>,
    v: Seq<Real>,
    d: Data,
    target: Vector3,
    l: int,
    mask: Seq<usize>,
    jac: Seq<Motion>,
)
    requires
        m.wf(),
        rigid::exact_arithmetic(k),
        exact_columns(k),
        rigid_placements(k),
        d.fits(m),
        fk::all_placed(k, m, q, d),
        fk::moves_up_to(k, m, v, d, m.joints@.len() as int),
        0 < l < m.joints@.len(),
        jacobian::is_jacobian(k, m, d.oMi@, target, l, mask, jac),
        forall|i: int, c: int|
            #![trigger jacobian::masked(mask, i), jacobian::owns(m, i, c)]
            0 < i < m.joints@.len() && jacobian::masked(mask, i) && jacobian::owns(m, i, c) ==> exact::val(v[c]) == 0real,
    ensures
        algebra::blend(rigid::nums(jac), |c: int| exact::val(v[c]), m.nv as int) == algebra::image(
            sight(d.oMi@[l], target),
            rigid::num(d.v@[l]),
        ),
{
    let n = m.joints@.len() as int;
    let x = d.joint_placements@;
    assert(crba::all_relative(k, m, q, x)) by {
        assert forall|i: int| 1 <= i < x.len() implies #[trigger] model::relative(k, m, q, i, x[i]) by {
            assert(fk::placed(k, m, q, x, d.oMi@, i));
        }
    }
    energy::bodies_are_in_motion(k, m, q, v, d, x);
    let u = |c: int| exact::val(v[c]);
    let moved = algebra::image(sight(d.oMi@[l], target), rigid::num(d.v@[l]));
    let blended = algebra::blend(rigid::nums(jac), u, m.nv as int);
    assert forall|t: int| 0 <= t < 6 implies #[trigger] blended[t] == moved[t] by {
        let f = weighed(v, jac, t);
        energy::total_by_joints(m, n, f);
        let by_joint = |i: int| algebra::total(m.kind(i).nv() as int, |s: int| f(m.v_idx@[i] + s));
        let g = part(m, d.oMi@, target, v, l, t);
        assert forall|i: int| 0 <= i < n implies #[trigger] by_joint(i) == g(i) by {
            joint_has_its_part(k, m, d, v, target, l, mask, jac, t, i);
        }
        algebra::total_same(n, by_joint, g);
        motion_is_added_by_supports(k, m, q, d, target, v, l, t, n);
        algebra::total_same(m.nv as int, |c: int| u(c) * rigid::nums(jac)[c][t], f);
    }
    assert(blended =~= moved);
}

proof fn joint_has_its_part<K: SpatialMath>(
    k: &K,
    m: Model,
    d: Data,
    v: Seq<Real>,
    target: Vector3,
    l: int,
    mask: Seq<usize>,
    jac: Seq<Motion>,
    t: int,
    i: int,
)
    requires
        m.wf(),
        rigid::exact_arithmetic(k),
        exact_columns(k),
        jacobian::is_jacobian(k, m, d.oMi@, target, l, mask, jac),
        0 <= i < m.joints@.len(),
        0 <= t < 6,
        forall|i: int, c: int|
            #![trigger jacobian::masked(mask, i), jacobian::owns(m, i, c)]
            0 < i < m.joints@.len() && jacobian::masked(mask, i) && jacobian::owns(m, i, c) ==> exact::val(v[c]) == 0real,
    ensures
        algebra::total(
            m.kind(i).nv() as int,
            |s: int| weighed(v, jac, t)(m.v_idx@[i] + s),
        ) == part(m, d.oMi@, target, v, l, t)(i),
{
    let nv = m.kind(i).nv() as int;
    let at = m.v_idx@[i] as int;
    let f = |s: int| weighed(v, jac, t)(at + s);
    m.ranges(i);
    if i == 0 {
        assert(m.kind(0) == joint::JointType::Fixed);
    } else {
        joint::subspace_has_nv_columns(m.kind(i));
        let w = sight(d.oMi@[i], target);
        let s = rigid::nums(m.kind(i).subspace());
        let columns = Seq::new(s.len(), |c: int| algebra::image(w, s[c]));
        let rates = energy::rates(m, rigid::list(v), i);
        algebra::blend_image(w, s, columns, rates, nv);
        let g = |c: int| rates(c) * columns[c][t];
        assert(algebra::blend(columns, rates, nv)[t] == algebra::total(nv, g));
        if m.supports(i, l) && !jacobian::masked(mask, i) {
            assert forall|c: int| 0 <= c < nv implies #[trigger] f(c) == g(c) by {
                assert(jacobian::owns(m, i, at + c));
                assert(jacobian::column(k, m, d.oMi@, target, i, at + c, jac[at + c]));
            }
            algebra::total_same(nv, f, g);
        } else {
            assert forall|c: int| 0 <= c < nv implies #[trigger] f(c) == 0real by {
                assert(jacobian::owns(m, i, at + c));
                rigid::zero_is_nought();
                let y = exact::val(v[at + c]);
                assert(y * 0real == 0real);
            }
            algebra::total_zero(nv, f);
            if m.supports(i, l) {
                assert forall|c: int| 0 <= c < nv implies #[trigger] g(c) == 0real by {
                    assert(jacobian::owns(m, i, at + c));
                    assert(jacobian::masked(mask, i));
                    let y = columns[c][t];
                    assert(0real * y == 0real);
                }
                algebra::total_zero(nv, g);
            }
        }
    }
}

/// The Jacobian of a joint, times the velocities of the joints, is the motion of its body at its origin, as
/// seen in the world.
pub proof fn joint_jacobian_gives_the_velocity<K: SpatialMath>(
    k: &K,
    m: Model,
    q: Seq<Real>,
    v: Seq<Real>,
    d: Data,
    l: int,
    mask: Seq<usize>,
    jac: Seq<Motion>,
)
    requires
        m.wf(),
        rigid::exact_arithmetic(k),
        exact_columns(k),
        rigid_placements(k),
        d.fits(m),
        fk::all_placed(k, m, q, d),
        fk::moves_up_to(k, m, v, d, m.joints@.len() as int),
        0 < l < m.joints@.len(),
        jacobian::joint_jacobian(k, m, q, l, mask, jac),
        forall|i: int, c: int|
            #![trigger jacobian::masked(mask, i), jacobian::owns(m, i, c)]
            0 < i < m.joints@.len() && jacobian::masked(mask, i) && jacobian::owns(m, i, c) ==> exact::val(v[c]) == 0real,
    ensures
        algebra::blend(rigid::nums(jac), |c: int| exact::val(v[c]), m.nv as int) == algebra::image(
            sight(d.oMi@[l], d.oMi@[l].translation),
            rigid::num(d.v@[l]),
        ),
{
    let e = choose|e: Data|
        {
            &&& e.fits(m)
            &&& #[trigger] fk::all_placed(k, m, q, e)
            &&& jacobian::is_jacobian(k, m, e.oMi@, e.oMi@[l].translation, l, mask, jac)
        };
    fk::placing_repeats_itself(k, m, q, d, e);
    jacobian_gives_the_velocity(k, m, q, v, d, d.oMi@[l].translation, l, mask, jac);
}

/// The Jacobian of a frame, times the velocities of the joints, is the motion of the body that it is attached
/// to at the origin of the frame.
pub proof fn frame_jacobian_gives_the_velocity<K: SpatialMath>(
    k: &K,
    m: Model,
    q: Seq<Real>,
    v: Seq<Real>,
    d: Data,
    frame: Frame,
    x: Placement,
    jac: Seq<Motion>,
)
    requires
        m.wf(),
        rigid::exact_arithmetic(k),
        exact_columns(k),
        rigid_placements(k),
        d.fits(m),
        fk::all_placed(k, m, q, d),
        fk::moves_up_to(k, m, v, d, m.joints@.len() as int),
        0 < frame.parent_joint < m.joints@.len(),
        call_ensures(K::compose, (k, d.oMi@[frame.parent_joint as int], frame.placement), x),
        frames::frame_jacobian(k, m, d, frame, jac),
    ensures
        algebra::blend(rigid::nums(jac), |c: int| exact::val(v[c]), m.nv as int) == algebra::image(
            sight(d.oMi@[frame.parent_joint as int], x.translation),
            rigid::num(d.v@[frame.parent_joint as int]),
        ),
{
    let l = frame.parent_joint as int;
    let y = choose|y: Placement|
        {
            &&& #[trigger] call_ensures(K::compose, (k, d.oMi@[frame.parent_joint as int], frame.placement), y)
            &&& jacobian::is_jacobian(k, m, d.oMi@, y.translation, frame.parent_joint as int, Seq::empty(), jac)
        };
    assert(x == y);
    jacobian_gives_the_velocity(k, m, q, v, d, x.translation, l, Seq::empty(), jac);
}

/// The Jacobian of one joint relative to another, times the velocities of the joints, is the motion of the one
/// without that of the other, each at its origin.
pub proof fn relative_jacobian_gives_the_velocity<K: SpatialMath>(
    k: &K,
    m: Model,
    q: Seq<Real>,
    v: Seq<Real>,
    d: Data,
    base: int,
    ee: int,
    jac: Seq<Motion>,
    t: int,
)
    requires
        m.wf(),
        rigid::exact_arithmetic(k),
        exact_columns(k),
        rigid_placements(k),
        forall|a: Motion, b: Motion, r: Motion, t: int|
            #![trigger call_ensures(K::motion_difference, (k, a, b), r), rigid::num(r)[t]]
            call_ensures(K::motion_difference, (k, a, b), r) && 0 <= t < 6 ==> rigid::num(r)[t] == rigid::num(a)[t]
                - rigid::num(b)[t],
        d.fits(m),
        fk::all_placed(k, m, q, d),
        fk::moves_up_to(k, m, v, d, m.joints@.len() as int),
        0 < base < m.joints@.len(),
        0 < ee < m.joints@.len(),
        jacobian::relative_jacobian(k, m, d.oMi@, base, ee, Seq::empty(), jac),
        0 <= t < 6,
    ensures
        algebra::blend(rigid::nums(jac), |c: int| exact::val(v[c]), m.nv as int)[t] == algebra::image(
            sight(d.oMi@[ee], d.oMi@[ee].translation),
            rigid::num(d.v@[ee]),
        )[t] - algebra::image(sight(d.oMi@[base], d.oMi@[base].translation), rigid::num(d.v@[base]))[t],
{
    let none = Seq::<usize>::empty();
    let (e, b) = choose|e: Seq<Motion>, b: Seq<Motion>|
        {
            &&& #[trigger] jacobian::is_jacobian(k, m, d.oMi@, d.oMi@[ee].translation, ee, none, e)
            &&& #[trigger] jacobian::is_jacobian(k, m, d.oMi@, d.oMi@[base].translation, base, none, b)
            &&& jacobian::columns_differ_by(k, e, b, jac)
        };
    jacobian_gives_the_velocity(k, m, q, v, d, d.oMi@[ee].translation, ee, none, e);
    jacobian_gives_the_velocity(k, m, q, v, d, d.oMi@[base].translation, base, none, b);
    let u = |c: int| exact::val(v[c]);
    let nv = m.nv as int;
    let (f, g, h) = (
        |c: int| u(c) * rigid::nums(e)[c][t],
        |c: int| u(c) * rigid::nums(b)[c][t],
        |c: int| u(c) * rigid::nums(jac)[c][t],
    );
    assert forall|c: int| 0 <= c < nv implies #[trigger] f(c) == h(c) + g(c) by {
        assert(call_ensures(K::motion_difference, (k, e[c], b[c]), jac[c]));
        let (y, x, z) = (u(c), rigid::nums(e)[c][t], rigid::nums(b)[c][t]);
        assert(rigid::num(jac[c])[t] == x - z);
        assert(y * x == y * (x - z) + y * z) by (nonlinear_arith);
    }
    algebra::total_plus(nv, h, g, f);
}

} // verus!
