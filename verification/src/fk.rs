//! Forward kinematics.

use vstd::prelude::*;
use crate::exact;
use crate::model;
use crate::spatial;
use crate::data::Data;
use crate::model::{relative_placement, Model};
use crate::joint::JointType;
use crate::number::{Real, Vector3};
use crate::spatial::{combine, world_acceleration, Motion, Placement, SpatialMath};

verus! {

/// Whether joint `i` is placed relative to its parent and in the world.
pub open spec fn placed<K: SpatialMath>(
    k: &K,
    m: Model,
    q: Seq<Real>,
    rel: Seq<Placement>,
    abs: Seq<Placement>,
    i: int,
) -> bool {
    &&& model::relative(k, m, q, i, rel[i])
    &&& call_ensures(K::compose, (k, abs[m.parent(i)], rel[i]), abs[i])
}

/// Whether the first `n` joints are placed, the world at the origin.
pub open spec fn placed_up_to<K: SpatialMath>(
    k: &K,
    m: Model,
    q: Seq<Real>,
    rel: Seq<Placement>,
    abs: Seq<Placement>,
    n: int,
) -> bool {
    &&& rel.len() == m.joints@.len()
    &&& abs.len() == m.joints@.len()
    &&& rel[0] == Placement::identity()
    &&& abs[0] == Placement::identity()
    &&& forall|i: int| 1 <= i < n ==> #[trigger] placed(k, m, q, rel, abs, i)
}

/// Whether all joints are placed.
pub open spec fn all_placed<K: SpatialMath>(k: &K, m: Model, q: Seq<Real>, d: Data) -> bool {
    placed_up_to(k, m, q, d.joint_placements@, d.oMi@, m.joints@.len() as int)
}

/// Joints are placed alike each time, as far as placements are computed alike.
pub proof fn placing_repeats_itself<K: SpatialMath>(k: &K, m: Model, q: Seq<Real>, d: Data, e: Data)
    requires
        m.wf(),
        spatial::places_alike(k),
        all_placed(k, m, q, d),
        all_placed(k, m, q, e),
    ensures
        d.oMi@ == e.oMi@,
        d.joint_placements@ == e.joint_placements@,
{
    assert forall|i: int| 0 <= i < m.joints@.len() implies d.oMi@[i] == e.oMi@[i] && d.joint_placements@[i]
        == e.joint_placements@[i] by {
        joint_repeats_itself(k, m, q, d, e, i);
    }
    assert(d.oMi@ =~= e.oMi@);
    assert(d.joint_placements@ =~= e.joint_placements@);
}

proof fn joint_repeats_itself<K: SpatialMath>(k: &K, m: Model, q: Seq<Real>, d: Data, e: Data, i: int)
    requires
        m.wf(),
        spatial::places_alike(k),
        all_placed(k, m, q, d),
        all_placed(k, m, q, e),
        0 <= i < m.joints@.len(),
    ensures
        d.oMi@[i] == e.oMi@[i],
        d.joint_placements@[i] == e.joint_placements@[i],
    decreases i,
{
    if i > 0 {
        assert(m.joints@[i].parent < i);
        joint_repeats_itself(k, m, q, d, e, m.parent(i));
        assert(placed(k, m, q, d.joint_placements@, d.oMi@, i));
        assert(placed(k, m, q, e.joint_placements@, e.oMi@, i));
        let at = m.q_idx@[i] as int;
        let x = choose|x: Placement|
            {
                &&& #[trigger] m.kind(i).placed(k, q, at, x)
                &&& call_ensures(K::compose, (k, m.joints@[i].placement, x), d.joint_placements@[i])
            };
        let y = choose|y: Placement|
            {
                &&& #[trigger] m.kind(i).placed(k, q, at, y)
                &&& call_ensures(K::compose, (k, m.joints@[i].placement, y), e.joint_placements@[i])
            };
        assert(x == y);
    }
}

/// Places joint `i`.
fn place_joint<K: SpatialMath>(k: &K, model: &Model, q: &[Real], data: &mut Data, i: usize)
    requires
        model.wf(),
        q@.len() == model.nq,
        old(data).fits(*model),
        1 <= i < model.joints@.len(),
        placed_up_to(k, *model, q@, old(data).joint_placements@, old(data).oMi@, i as int),
    ensures
        final(data).fits(*model),
        placed_up_to(k, *model, q@, final(data).joint_placements@, final(data).oMi@, i + 1),
        final(data).v == old(data).v,
        final(data).a == old(data).a,
        final(data).J == old(data).J,
{
    let ghost before = *data;
    let parent: usize = model.joints[i].parent;
    let rel = relative_placement(k, model, q, i);
    let abs = k.compose(data.oMi[parent], rel);
    data.oMi.set(i, abs);
    data.joint_placements.set(i, rel);
    assert forall|j: int| 1 <= j < i + 1 implies #[trigger] placed(
        k,
        *model,
        q@,
        data.joint_placements@,
        data.oMi@,
        j,
    ) by {
        assert(model.joints@[j].parent < j);
        if j < i {
            assert(placed(k, *model, q@, before.joint_placements@, before.oMi@, j));
        }
    }
}

/// Places every joint in the world for a configuration.
pub fn forward_kinematics<K: SpatialMath>(k: &K, model: &Model, q: &[Real]) -> (data: Data)
    requires
        model.wf(),
        q@.len() == model.nq,
    ensures
        data.fits(*model),
        all_placed(k, *model, q@, data),
        data.v@ == Seq::new(model.joints@.len(), |i: int| Motion::zero()),
        data.a@ == Seq::new(model.joints@.len(), |i: int| Motion::zero()),
        data.J@ == Seq::new(model.nv as nat, |i: int| Motion::zero()),
{
    let mut data = Data::new(model);
    let ghost start = data;
    let n: usize = model.joints.len();
    for i in 1..n
        invariant
            n == model.joints@.len(),
            model.wf(),
            q@.len() == model.nq,
            data.fits(*model),
            placed_up_to(k, *model, q@, data.joint_placements@, data.oMi@, i as int),
            data.v == start.v,
            data.a == start.a,
            data.J == start.J,
    {
        place_joint(k, model, q, &mut data, i);
    }
    data
}

/// Whether `own` is the velocity that joint `i` adds and `r` that of its body, when the
/// parent's is `above`.
pub open spec fn moving<K: SpatialMath>(
    k: &K,
    m: Model,
    v: Seq<Real>,
    x: Placement,
    above: Motion,
    i: int,
    own: Motion,
    r: Motion,
) -> bool {
    &&& spatial::combination(k, m.kind(i).subspace(), v, m.v_idx@[i] as int, m.kind(i).nv() as int, own)
    &&& carried(k, x, above, own, r)
}

/// Whether `r` is `above` as seen behind the placement `x`, plus `own`.
pub open spec fn carried<K: SpatialMath>(k: &K, x: Placement, above: Motion, own: Motion, r: Motion) -> bool {
    exists|t: Motion| #[trigger]
        call_ensures(K::motion_to_child, (k, x, above), t) && call_ensures(
            K::motion_sum,
            (k, t, own),
            r,
        )
}

/// The velocity that joint `i` adds, and that of its body.
pub fn body_velocity<K: SpatialMath>(
    k: &K,
    model: &Model,
    v: &[Real],
    x: Placement,
    above: Motion,
    i: usize,
) -> (r: (Motion, Motion))
    requires
        model.wf(),
        v@.len() == model.nv,
        i < model.joints@.len(),
    ensures
        moving(k, *model, v@, x, above, i as int, r.0, r.1),
{
    proof {
        model.ranges(i as int);
    }
    let s = model.joints[i].joint_type.motion_subspace();
    let own = combine(k, &s, v, model.v_idx[i]);
    let t = k.motion_to_child(x, above);
    let r = k.motion_sum(t, own);
    (own, r)
}

/// Whether body `i` moves with the velocity that its joint adds to its parent's.
pub open spec fn moves<K: SpatialMath>(k: &K, m: Model, v: Seq<Real>, d: Data, i: int) -> bool {
    exists|own: Motion| #[trigger]
        moving(k, m, v, d.joint_placements@[i], d.v@[m.parent(i)], i, own, d.v@[i])
}

/// Whether the first `n` bodies move as their joints do, the world being at rest.
pub open spec fn moves_up_to<K: SpatialMath>(k: &K, m: Model, v: Seq<Real>, d: Data, n: int) -> bool {
    &&& d.v@[0] == Motion::zero()
    &&& forall|i: int| 1 <= i < n ==> #[trigger] moves(k, m, v, d, i)
}

/// Places every joint and gives every body its velocity.
pub fn forward_kinematics_velocity<K: SpatialMath>(k: &K, model: &Model, q: &[Real], v: &[Real]) -> (data:
    Data)
    requires
        model.wf(),
        q@.len() == model.nq,
        v@.len() == model.nv,
    ensures
        data.fits(*model),
        all_placed(k, *model, q@, data),
        moves_up_to(k, *model, v@, data, model.joints@.len() as int),
        data.a@ == Seq::new(model.joints@.len(), |i: int| Motion::zero()),
        data.J@ == Seq::new(model.nv as nat, |i: int| Motion::zero()),
{
    let mut data = forward_kinematics(k, model, q);
    let ghost start = data;
    let n: usize = model.joints.len();
    for i in 1..n
        invariant
            n == model.joints@.len(),
            model.wf(),
            v@.len() == model.nv,
            data.fits(*model),
            data.joint_placements == start.joint_placements,
            data.oMi == start.oMi,
            data.a == start.a,
            data.J == start.J,
            moves_up_to(k, *model, v@, data, i as int),
    {
        let ghost before = data;
        let parent: usize = model.joints[i].parent;
        let (own, r) = body_velocity(k, model, v, data.joint_placements[i], data.v[parent], i);
        data.v.set(i, r);
        assert forall|j: int| 1 <= j < i + 1 implies #[trigger] moves(k, *model, v@, data, j) by {
            assert(model.joints@[j].parent < j);
            if j < i {
                assert(moves(k, *model, v@, before, j));
                let o = choose|o: Motion| #[trigger]
                    moving(
                        k,
                        *model,
                        v@,
                        before.joint_placements@[j],
                        before.v@[model.parent(j)],
                        j,
                        o,
                        before.v@[j],
                    );
                assert(moving(
                    k,
                    *model,
                    v@,
                    data.joint_placements@[j],
                    data.v@[model.parent(j)],
                    j,
                    o,
                    data.v@[j],
                ));
            } else {
                assert(moving(
                    k,
                    *model,
                    v@,
                    data.joint_placements@[j],
                    data.v@[model.parent(j)],
                    j,
                    own,
                    data.v@[j],
                ));
            }
        }
    }
    data
}

/// Whether `r` is the acceleration of body `i`: the parent's as seen from it, plus what
/// the joint adds, plus the change of the joint's own velocity `own`.
pub open spec fn accelerating<K: SpatialMath>(
    k: &K,
    m: Model,
    a: Seq<Real>,
    x: Placement,
    above: Motion,
    velocity: Motion,
    own: Motion,
    i: int,
    r: Motion,
) -> bool {
    exists|added: Motion, sum: Motion, turn: Motion|
        {
            &&& spatial::combination(k, m.kind(i).subspace(), a, m.v_idx@[i] as int, m.kind(i).nv() as int, added)
            &&& #[trigger] carried(k, x, above, added, sum)
            &&& #[trigger] call_ensures(K::motion_cross, (k, velocity, own), turn)
            &&& call_ensures(K::motion_sum, (k, sum, turn), r)
        }
}

/// Acceleration of body `i`.
fn body_acceleration<K: SpatialMath>(
    k: &K,
    model: &Model,
    a: &[Real],
    x: Placement,
    above: Motion,
    velocity: Motion,
    own: Motion,
    i: usize,
) -> (r: Motion)
    requires
        model.wf(),
        a@.len() == model.nv,
        i < model.joints@.len(),
    ensures
        accelerating(k, *model, a@, x, above, velocity, own, i as int, r),
{
    let (added, sum) = body_velocity(k, model, a, x, above, i);
    let turn = k.motion_cross(velocity, own);
    assert(carried(k, x, above, added, sum));
    assert(call_ensures(K::motion_cross, (k, velocity, own), turn));
    k.motion_sum(sum, turn)
}

/// Whether body `i` moves and accelerates as its joint does.
pub open spec fn drives<K: SpatialMath>(
    k: &K,
    m: Model,
    v: Seq<Real>,
    a: Seq<Real>,
    d: Data,
    i: int,
) -> bool {
    exists|own: Motion|
        {
            &&& #[trigger] moving(k, m, v, d.joint_placements@[i], d.v@[m.parent(i)], i, own, d.v@[i])
            &&& accelerating(
                k,
                m,
                a,
                d.joint_placements@[i],
                d.a@[m.parent(i)],
                d.v@[i],
                own,
                i,
                d.a@[i],
            )
        }
}

/// Whether the first `n` bodies move and accelerate as their joints do, the world
/// accelerating against gravity.
pub open spec fn drives_up_to<K: SpatialMath>(
    k: &K,
    m: Model,
    v: Seq<Real>,
    a: Seq<Real>,
    d: Data,
    n: int,
) -> bool {
    &&& d.v@[0] == Motion::zero()
    &&& d.a@[0] == spatial::against(m.gravity)
    &&& forall|i: int| 1 <= i < n ==> #[trigger] drives(k, m, v, a, d, i)
}

/// Places every joint and gives every body its velocity and acceleration, gravity
/// included.
pub fn forward_kinematics_acceleration<K: SpatialMath>(
    k: &K,
    model: &Model,
    q: &[Real],
    v: &[Real],
    a: &[Real],
) -> (data: Data)
    requires
        model.wf(),
        q@.len() == model.nq,
        v@.len() == model.nv,
        a@.len() == model.nv,
    ensures
        data.fits(*model),
        all_placed(k, *model, q@, data),
        drives_up_to(k, *model, v@, a@, data, model.joints@.len() as int),
        data.J@ == Seq::new(model.nv as nat, |i: int| Motion::zero()),
{
    let mut data = forward_kinematics(k, model, q);
    let ghost start = data;
    let n: usize = model.joints.len();
    data.a.set(0, world_acceleration(model.gravity));
    for i in 1..n
        invariant
            n == model.joints@.len(),
            model.wf(),
            v@.len() == model.nv,
            a@.len() == model.nv,
            data.fits(*model),
            data.joint_placements == start.joint_placements,
            data.oMi == start.oMi,
            data.J == start.J,
            drives_up_to(k, *model, v@, a@, data, i as int),
    {
        let ghost before = data;
        let parent: usize = model.joints[i].parent;
        let x = data.joint_placements[i];
        let (own, velocity) = body_velocity(k, model, v, x, data.v[parent], i);
        data.v.set(i, velocity);
        let r = body_acceleration(k, model, a, x, data.a[parent], velocity, own, i);
        data.a.set(i, r);
        assert forall|j: int| 1 <= j < i + 1 implies #[trigger] drives(k, *model, v@, a@, data, j) by {
            assert(model.joints@[j].parent < j);
            if j < i {
                assert(drives(k, *model, v@, a@, before, j));
                let o = choose|o: Motion|
                    {
                        &&& #[trigger] moving(
                            k,
                            *model,
                            v@,
                            before.joint_placements@[j],
                            before.v@[model.parent(j)],
                            j,
                            o,
                            before.v@[j],
                        )
                        &&& accelerating(
                            k,
                            *model,
                            a@,
                            before.joint_placements@[j],
                            before.a@[model.parent(j)],
                            before.v@[j],
                            o,
                            j,
                            before.a@[j],
                        )
                    };
                assert(moving(
                    k,
                    *model,
                    v@,
                    data.joint_placements@[j],
                    data.v@[model.parent(j)],
                    j,
                    o,
                    data.v@[j],
                ));
            } else {
                assert(moving(
                    k,
                    *model,
                    v@,
                    data.joint_placements@[j],
                    data.v@[model.parent(j)],
                    j,
                    own,
                    data.v@[j],
                ));
            }
        }
    }
    data
}

// ── Where joints take points ──

/// The values of a vector of space, times a number.
pub open spec fn stretched(x: real, v: Vector3) -> Seq<real> {
    seq![x * exact::val(v.x), x * exact::val(v.y), x * exact::val(v.z)]
}

/// The sum of two vectors of space.
pub open spec fn moved_by(p: Seq<real>, v: Seq<real>) -> Seq<real> {
    seq![p[0] + v[0], p[1] + v[1], p[2] + v[2]]
}

/// Whether `carry` says where placements take points: one seen through another takes a point where the two
/// take it one after the other, the identity leaves it, a rotation leaves the points of its axis, a
/// translation moves it along its axis, and a free placement takes the origin where it says.
pub open spec fn takes_points<K: SpatialMath>(k: &K, carry: spec_fn(Placement, Seq<real>) -> Seq<real>) -> bool {
    &&& forall|a: Placement, b: Placement, r: Placement, p: Seq<real>|
        #![trigger call_ensures(K::compose, (k, a, b), r), carry(r, p)]
        call_ensures(K::compose, (k, a, b), r) ==> carry(r, p) == carry(a, carry(b, p))
    &&& forall|p: Seq<real>| #[trigger] carry(Placement::identity(), p) == p
    &&& forall|axis: Vector3, angle: Real, r: Placement, x: real|
        #![trigger call_ensures(K::rotation, (k, axis, angle), r), stretched(x, axis)]
        call_ensures(K::rotation, (k, axis, angle), r) ==> carry(r, stretched(x, axis)) == stretched(x, axis)
    &&& forall|axis: Vector3, distance: Real, r: Placement, p: Seq<real>|
        #![trigger call_ensures(K::translation, (k, axis, distance), r), carry(r, p)]
        call_ensures(K::translation, (k, axis, distance), r) ==> carry(r, p) == moved_by(
            p,
            stretched(exact::val(distance), axis),
        )
    &&& forall|t: Vector3, i: Real, j: Real, h: Real, w: Real, r: Placement| #[trigger]
        call_ensures(K::free, (k, t, i, j, h, w), r) ==> carry(r, seq![0real, 0real, 0real]) == stretched(1real, t)
}

/// Where the parent of joint `i` takes a point of the joint's frame at rest.
pub open spec fn at_rest(
    carry: spec_fn(Placement, Seq<real>) -> Seq<real>,
    m: Model,
    abs: Seq<Placement>,
    i: int,
    p: Seq<real>,
) -> Seq<real> {
    carry(abs[m.parent(i)], carry(m.joints@[i].placement, p))
}

/// Joints take points where their kind says, as seen from the body that they are attached to: a fixed joint
/// keeps them, a prismatic one moves them along its axis as far as its number says, a revolute one leaves its
/// axis, and a free one takes its origin to the place that it is given.
pub proof fn joints_take_points_along<K: SpatialMath>(
    k: &K,
    carry: spec_fn(Placement, Seq<real>) -> Seq<real>,
    m: Model,
    q: Seq<Real>,
    d: Data,
    i: int,
    p: Seq<real>,
    x: real,
)
    requires
        m.wf(),
        takes_points(k, carry),
        all_placed(k, m, q, d),
        0 < i < m.joints@.len(),
    ensures
        carry(d.oMi@[0], p) == p,
        m.kind(i) is Fixed ==> carry(d.oMi@[i], p) == at_rest(carry, m, d.oMi@, i, p),
        m.kind(i) matches JointType::Prismatic { axis } ==> carry(d.oMi@[i], p) == at_rest(
            carry,
            m,
            d.oMi@,
            i,
            moved_by(p, stretched(exact::val(q[m.q_idx@[i] as int]), axis)),
        ),
        m.kind(i) matches JointType::Revolute { axis } ==> carry(d.oMi@[i], stretched(x, axis)) == at_rest(
            carry,
            m,
            d.oMi@,
            i,
            stretched(x, axis),
        ),
        m.kind(i) is FreeFlyer ==> carry(d.oMi@[i], seq![0real, 0real, 0real]) == at_rest(
            carry,
            m,
            d.oMi@,
            i,
            seq![
                exact::val(q[m.q_idx@[i] as int]),
                exact::val(q[m.q_idx@[i] + 1]),
                exact::val(q[m.q_idx@[i] + 2]),
            ],
        ),
{
    assert(placed(k, m, q, d.joint_placements@, d.oMi@, i));
    let at = m.q_idx@[i] as int;
    let rel = d.joint_placements@[i];
    let y = choose|y: Placement|
        {
            &&& #[trigger] m.kind(i).placed(k, q, at, y)
            &&& call_ensures(K::compose, (k, m.joints@[i].placement, y), rel)
        };
    assert forall|z: Seq<real>| #[trigger] carry(d.oMi@[i], z) == at_rest(carry, m, d.oMi@, i, carry(y, z)) by {
        assert(carry(rel, z) == carry(m.joints@[i].placement, carry(y, z)));
    }
    match m.kind(i) {
        JointType::Revolute { axis } => {
            assert(carry(y, stretched(x, axis)) == stretched(x, axis));
        },
        JointType::FreeFlyer => {
            let t = Vector3 { x: q[at], y: q[at + 1], z: q[at + 2] };
            assert(stretched(1real, t) =~= seq![exact::val(q[at]), exact::val(q[at + 1]), exact::val(q[at + 2])]);
        },
        _ => {},
    }
}

} // verus!
