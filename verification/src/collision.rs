//! Collision and distance queries.
//!
//! Pairs of objects can be left out of a query: those on the same joint or on
//! directly connected joints, or those of an [`AllowedCollisionMatrix`].

use vstd::prelude::*;
use crate::fk;
use crate::joint;
use crate::data::Data;
use crate::fk::forward_kinematics;
use crate::geometry::{GeometryModel, GeometryObject, GeometryShape};
use crate::model::Model;
use crate::number::{Real, Vector3, ONE};
use crate::spatial;
use crate::spatial::{Placement, SpatialMath};

verus! {

broadcast use vstd::std_specs::hash::group_hash_axioms;

/// Pairs of objects whose collisions do not count.
#[derive(Debug)]
pub struct AllowedCollisionMatrix {
    allowed: std::collections::HashSet<u128>,
}

/// The number under which a pair is kept, whatever its order.
spec fn pair_code(a: int, b: int) -> int {
    if a <= b {
        a * 0x1_0000_0000_0000_0000 + b
    } else {
        b * 0x1_0000_0000_0000_0000 + a
    }
}

fn encode_pair(a: usize, b: usize) -> (r: u128)
    ensures
        r == pair_code(a as int, b as int),
{
    let (lo, hi) = if a <= b { (a, b) } else { (b, a) };
    lo as u128 * 0x1_0000_0000_0000_0000u128 + hi as u128
}

proof fn pair_code_is_injective(a: usize, b: usize, x: usize, y: usize)
    ensures
        pair_code(a as int, b as int) == pair_code(x as int, y as int) <==> same_pair(a, b, x, y),
{
}

/// Whether two pairs are the same but for their order.
pub open spec fn same_pair(a: usize, b: usize, x: usize, y: usize) -> bool {
    (a == x && b == y) || (a == y && b == x)
}

impl Clone for AllowedCollisionMatrix {
    fn clone(&self) -> (r: Self)
        ensures
            forall|a: usize, b: usize| #[trigger] r.allows(a, b) == self.allows(a, b),
    {
        let mut allowed: std::collections::HashSet<u128> = std::collections::HashSet::new();
        for c in codes: self.allowed.iter()
            invariant
                forall|x: u128|
                    allowed@.contains(x) <==> exists|i: int|
                        0 <= i < codes.index() && #[trigger] codes.seq().unref()[i] == x,
                codes.seq().unref().to_set() == self.allowed@,
        {
            allowed.insert(*c);
        }
        assert(allowed@ =~= self.allowed@);
        AllowedCollisionMatrix { allowed }
    }
}

impl AllowedCollisionMatrix {
    /// Whether collisions of the pair do not count.
    pub closed spec fn allows(self, a: usize, b: usize) -> bool {
        self.allowed@.contains(pair_code(a as int, b as int) as u128)
    }

    /// No pairs.
    pub fn new() -> (r: Self)
        ensures
            forall|a: usize, b: usize| !#[trigger] r.allows(a, b),
    {
        AllowedCollisionMatrix { allowed: std::collections::HashSet::new() }
    }

    /// Adds the pair.
    pub fn allow(&mut self, a: usize, b: usize)
        ensures
            forall|x: usize, y: usize| #[trigger]
                final(self).allows(x, y) == (old(self).allows(x, y) || same_pair(a, b, x, y)),
    {
        let code: u128 = encode_pair(a, b);
        self.allowed.insert(code);
        assert forall|x: usize, y: usize| #[trigger] self.allows(x, y) == (old(self).allows(x, y)
            || same_pair(a, b, x, y)) by {
            pair_code_is_injective(a, b, x, y);
        }
    }

    /// Takes the pair out.
    pub fn disallow(&mut self, a: usize, b: usize)
        ensures
            forall|x: usize, y: usize| #[trigger]
                final(self).allows(x, y) == (old(self).allows(x, y) && !same_pair(a, b, x, y)),
    {
        let code: u128 = encode_pair(a, b);
        self.allowed.remove(&code);
        assert forall|x: usize, y: usize| #[trigger] self.allows(x, y) == (old(self).allows(x, y)
            && !same_pair(a, b, x, y)) by {
            pair_code_is_injective(a, b, x, y);
        }
    }

    /// Tells whether collisions of the pair do not count.
    pub fn is_allowed(&self, a: usize, b: usize) -> (r: bool)
        ensures
            r == self.allows(a, b),
    {
        let code: u128 = encode_pair(a, b);
        self.allowed.contains(&code)
    }

    /// Allows the pairs of objects on the same joint or on directly connected joints.
    pub fn from_adjacent_links(model: &Model, gmodel: &GeometryModel) -> (r: Self)
        ensures
            allows_adjacent(*model, *gmodel, r),
    {
        let mut acm = Self::new();
        let n: usize = gmodel.objects.len();
        for i in 0..n
            invariant
                n == gmodel.objects@.len(),
                forall|x: usize, y: usize| #[trigger]
                    acm.allows(x, y) <==> x != y && x < n && y < n && (x < i || y < i) && adjacent(
                        *model,
                        gmodel.objects@[x as int].parent_joint,
                        gmodel.objects@[y as int].parent_joint,
                    ),
        {
            let ghost before = acm;
            for j in i + 1..n
                invariant
                    n == gmodel.objects@.len(),
                    i < n,
                    forall|x: usize, y: usize| #[trigger]
                        acm.allows(x, y) <==> x != y && x < n && y < n && (x < i || y < i || (x == i && y
                            < j) || (y == i && x < j)) && adjacent(
                            *model,
                            gmodel.objects@[x as int].parent_joint,
                            gmodel.objects@[y as int].parent_joint,
                        ),
            {
                let ja: usize = gmodel.objects[i].parent_joint;
                let jb: usize = gmodel.objects[j].parent_joint;
                if are_adjacent_joints(model, ja, jb) {
                    acm.allow(i, j);
                }
            }
        }
        acm
    }
}

impl Default for AllowedCollisionMatrix {
    fn default() -> (r: Self)
        ensures
            forall|a: usize, b: usize| !#[trigger] r.allows(a, b),
    {
        Self::new()
    }
}

/// An allowed pair is allowed in either order.
pub proof fn allowing_is_symmetric(m: AllowedCollisionMatrix, a: usize, b: usize)
    ensures
        m.allows(a, b) == m.allows(b, a),
{
    pair_code_is_injective(a, b, b, a);
}

/// Putting in a pair that was not there and taking it out again changes nothing.
pub proof fn disallowing_undoes_allowing(
    before: AllowedCollisionMatrix,
    with: AllowedCollisionMatrix,
    after: AllowedCollisionMatrix,
    a: usize,
    b: usize,
)
    requires
        !before.allows(a, b),
        forall|x: usize, y: usize| #[trigger]
            with.allows(x, y) == (before.allows(x, y) || same_pair(a, b, x, y)),
        forall|x: usize, y: usize| #[trigger]
            after.allows(x, y) == (with.allows(x, y) && !same_pair(a, b, x, y)),
    ensures
        forall|x: usize, y: usize| #[trigger] after.allows(x, y) == before.allows(x, y),
{
    assert forall|x: usize, y: usize| #[trigger] after.allows(x, y) == before.allows(x, y) by {
        allowing_is_symmetric(before, a, b);
        assert(with.allows(x, y) == (before.allows(x, y) || same_pair(a, b, x, y)));
    }
}

/// Whether two joints are the same or one is directly attached to the other.
pub open spec fn adjacent(m: Model, a: usize, b: usize) -> bool {
    ||| a == b
    ||| b < m.joints@.len() && m.joints@[b as int].parent == a
    ||| a < m.joints@.len() && m.joints@[a as int].parent == b
}

/// Tells whether two joints are the same or one is directly attached to the other.
pub fn are_adjacent_joints(model: &Model, a: usize, b: usize) -> (r: bool)
    ensures
        r == adjacent(*model, a, b),
{
    if a == b {
        return true;
    }
    if b < model.joints.len() && model.joints[b].parent == a {
        return true;
    }
    if a < model.joints.len() && model.joints[a].parent == b {
        return true;
    }
    false
}

/// A pair of colliding objects.
#[derive(Clone, Copy, PartialEq, Eq, Structural, Debug)]
pub struct CollisionPair {
    pub a: usize,
    pub b: usize,
}

/// Geometric queries on placed shapes.  The shape of an object is its primitive, or the triangles
/// that were loaded for it.
///
/// Nothing is assumed of the results.
pub trait Proximity {
    /// Whether the shapes of two objects overlap, if that can be told.
    fn intersect(&self, a: Placement, oa: &GeometryObject, b: Placement, ob: &GeometryObject) -> Option<bool>;

    /// Distance of the shapes of two objects, if it can be told.
    fn separation(&self, a: Placement, oa: &GeometryObject, b: Placement, ob: &GeometryObject) -> Option<Real>;

    /// A total plus half the square of a number.
    fn add_half_square(&self, total: Real, x: Real) -> Real;
}

/// Bits of half of pi.
pub const HALF_PI: u64 = 0x3FF9_21FB_5444_2D18;

/// A shape placed in the world.
#[derive(Clone, Copy, Debug)]
pub struct CollisionObject {
    /// Number of the object.
    pub index: usize,
    pub parent_joint: usize,
    pub world_pose: Placement,
}

/// Whether `r` turns the frame of a shape into one with its axis along y.
pub open spec fn shape_frame<K: SpatialMath>(k: &K, shape: GeometryShape, r: Placement) -> bool {
    match shape {
        GeometryShape::Box { .. } => r == Placement::identity(),
        GeometryShape::Sphere { .. } => r == Placement::identity(),
        GeometryShape::Mesh { .. } => r == Placement::identity(),
        _ => call_ensures(K::rotation, (k, joint::axis(0), Real { bits: HALF_PI }), r),
    }
}

fn compute_shape_frame<K: SpatialMath>(k: &K, shape: &GeometryShape) -> (r: Placement)
    ensures
        shape_frame(k, *shape, r),
{
    let x = Vector3 { x: Real { bits: ONE }, y: Real { bits: 0 }, z: Real { bits: 0 } };
    let quarter = Real { bits: HALF_PI };
    match shape {
        GeometryShape::Box { .. } => Placement::identity(),
        GeometryShape::Sphere { .. } => Placement::identity(),
        GeometryShape::Mesh { .. } => Placement::identity(),
        GeometryShape::Cylinder { .. } => k.rotation(x, quarter),
        GeometryShape::Capsule { .. } => k.rotation(x, quarter),
        GeometryShape::Cone { .. } => k.rotation(x, quarter),
    }
}

/// Whether `r` is the object placed in the world.
pub open spec fn placed_object<K: SpatialMath>(
    k: &K,
    abs: Seq<Placement>,
    obj: GeometryObject,
    i: int,
    r: CollisionObject,
) -> bool {
    &&& r.index == i
    &&& r.parent_joint == obj.parent_joint
    &&& exists|f: Placement, p: Placement|
        {
            &&& #[trigger] shape_frame(k, obj.shape, f)
            &&& #[trigger] call_ensures(K::compose, (k, abs[obj.parent_joint as int], obj.placement), p)
            &&& call_ensures(K::compose, (k, p, f), r.world_pose)
        }
}

/// Whether an object takes part in queries: its joint exists, and a mesh has been loaded.
pub open spec fn takes_part(m: Model, obj: GeometryObject) -> bool {
    obj.parent_joint < m.joints@.len() && (obj.shape is Mesh ==> obj.mesh_data is Some)
}

fn test_loaded(obj: &GeometryObject) -> (r: bool)
    ensures
        r == (obj.shape is Mesh ==> obj.mesh_data is Some),
{
    match &obj.shape {
        GeometryShape::Mesh { .. } => obj.mesh_data.is_some(),
        _ => true,
    }
}

/// Numbers of the objects among the first `n` that take part.
pub open spec fn parts(m: Model, g: Seq<GeometryObject>, n: int) -> Seq<int>
    decreases n,
{
    if n <= 0 {
        Seq::empty()
    } else if takes_part(m, g[n - 1]) {
        parts(m, g, n - 1).push(n - 1)
    } else {
        parts(m, g, n - 1)
    }
}

/// Whether `objects` are the objects that take part, placed in the world.
pub open spec fn placed_objects<K: SpatialMath>(
    k: &K,
    m: Model,
    g: GeometryModel,
    abs: Seq<Placement>,
    objects: Seq<CollisionObject>,
) -> bool {
    placed_among(k, m, g, abs, objects, g.objects@.len() as int)
}

/// Whether `objects` are those of the first `n` objects that take part, placed in the world.
pub open spec fn placed_among<K: SpatialMath>(
    k: &K,
    m: Model,
    g: GeometryModel,
    abs: Seq<Placement>,
    objects: Seq<CollisionObject>,
    n: int,
) -> bool {
    let p = parts(m, g.objects@, n);
    &&& objects.len() == p.len()
    &&& forall|i: int|
        0 <= i < p.len() ==> placed_object(k, abs, g.objects@[p[i]], p[i], #[trigger] objects[i])
}

/// Places the objects that take part in the world.
fn build_collision_objects<K: SpatialMath>(k: &K, model: &Model, gmodel: &GeometryModel, data: &Data) -> (r: Vec<
    CollisionObject,
>)
    requires
        model.wf(),
        data.fits(*model),
    ensures
        placed_objects(k, *model, *gmodel, data.oMi@, r@),
{
    let mut r: Vec<CollisionObject> = Vec::new();
    for i in 0..gmodel.objects.len()
        invariant
            data.fits(*model),
            placed_among(k, *model, *gmodel, data.oMi@, r@, i as int),
    {
        let ghost before = r@;
        let obj = &gmodel.objects[i];
        if obj.parent_joint < data.oMi.len() && test_loaded(obj) {
            let f = compute_shape_frame(k, &obj.shape);
            let p = k.compose(data.oMi[obj.parent_joint], obj.placement);
            let world_pose = k.compose(p, f);
            let o = CollisionObject { index: i, parent_joint: obj.parent_joint, world_pose };
            assert(placed_object(k, data.oMi@, *obj, i as int, o));
            r.push(o);
            assert forall|j: int| 0 <= j < r@.len() implies placed_object(
                k,
                data.oMi@,
                gmodel.objects@[parts(*model, gmodel.objects@, i + 1)[j]],
                parts(*model, gmodel.objects@, i + 1)[j],
                #[trigger] r@[j],
            ) by {
                if j < before.len() {
                    assert(r@[j] == before[j]);
                }
            }
        }
    }
    r
}

/// Which pairs of objects are left out of a query.
pub enum PairFilter<'a> {
    /// None.
    All,
    /// Those on the same joint or on directly connected joints.
    SkipAdjacent,
    /// Those of a matrix.
    SkipAllowed(&'a AllowedCollisionMatrix),
}

/// Whether a pair of objects is left out.
pub open spec fn skipped(m: Model, filter: PairFilter, a: CollisionObject, b: CollisionObject) -> bool {
    match filter {
        PairFilter::All => false,
        PairFilter::SkipAdjacent => adjacent(m, a.parent_joint, b.parent_joint),
        PairFilter::SkipAllowed(acm) => acm.allows(a.index, b.index),
    }
}

fn test_skipped(model: &Model, filter: &PairFilter, a: &CollisionObject, b: &CollisionObject) -> (r: bool)
    ensures
        r == skipped(*model, *filter, *a, *b),
{
    match filter {
        PairFilter::All => false,
        PairFilter::SkipAdjacent => are_adjacent_joints(model, a.parent_joint, b.parent_joint),
        PairFilter::SkipAllowed(acm) => acm.is_allowed(a.index, b.index),
    }
}

/// The pairs of an object with later ones, up to the `n`-th, that are not left out.
pub open spec fn pairs_with(
    m: Model,
    filter: PairFilter,
    o: Seq<CollisionObject>,
    i: int,
    n: int,
) -> Seq<(int, int)>
    decreases n - i,
{
    if n <= i + 1 {
        Seq::empty()
    } else if skipped(m, filter, o[i], o[n - 1]) {
        pairs_with(m, filter, o, i, n - 1)
    } else {
        pairs_with(m, filter, o, i, n - 1).push((i, n - 1))
    }
}

/// The pairs of the first `n` objects with later ones that are not left out, in order.
pub open spec fn pairs(m: Model, filter: PairFilter, o: Seq<CollisionObject>, n: int) -> Seq<(int, int)>
    decreases n,
{
    if n <= 0 {
        Seq::empty()
    } else {
        pairs(m, filter, o, n - 1) + pairs_with(m, filter, o, n - 1, o.len() as int)
    }
}

/// Numbers as integers.
pub open spec fn as_ints(v: Seq<(usize, usize)>) -> Seq<(int, int)> {
    v.map_values(|p: (usize, usize)| (p.0 as int, p.1 as int))
}

/// Lists the pairs that are not left out.
fn list_pairs(model: &Model, filter: &PairFilter, o: &Vec<CollisionObject>) -> (r: Vec<(usize, usize)>)
    ensures
        as_ints(r@) == pairs(*model, *filter, o@, o@.len() as int),
        forall|i: int| 0 <= i < r@.len() ==> (#[trigger] r@[i]).0 < r@[i].1 < o@.len(),
{
    let mut r: Vec<(usize, usize)> = Vec::new();
    let n: usize = o.len();
    assert(as_ints(r@) =~= pairs(*model, *filter, o@, 0));
    for i in 0..n
        invariant
            n == o@.len(),
            as_ints(r@) == pairs(*model, *filter, o@, i as int),
            forall|x: int| 0 <= x < r@.len() ==> (#[trigger] r@[x]).0 < r@[x].1 < o@.len(),
    {
        let ghost before = as_ints(r@);
        assert(before + pairs_with(*model, *filter, o@, i as int, i + 1) =~= before);
        for j in i + 1..n
            invariant
                n == o@.len(),
                i < n,
                as_ints(r@) == before + pairs_with(*model, *filter, o@, i as int, j as int),
                forall|x: int| 0 <= x < r@.len() ==> (#[trigger] r@[x]).0 < r@[x].1 < o@.len(),
        {
            if !test_skipped(model, filter, &o[i], &o[j]) {
                let ghost r0 = r@;
                r.push((i, j));
                assert(as_ints(r@) =~= as_ints(r0).push((i as int, j as int)));
                assert(as_ints(r@) =~= before + pairs_with(*model, *filter, o@, i as int, j + 1));
            }
        }
    }
    r
}

/// Two objects are compared exactly if they are not left out, each pair once and in order.
pub proof fn pairs_are_those_not_skipped(
    m: Model,
    filter: PairFilter,
    o: Seq<CollisionObject>,
    n: int,
    i: int,
    j: int,
)
    requires
        0 <= n <= o.len(),
    ensures
        pairs(m, filter, o, n).contains((i, j)) <==> 0 <= i < n && i < j < o.len() && !skipped(
            m,
            filter,
            o[i],
            o[j],
        ),
    decreases n,
{
    if n > 0 {
        pairs_are_those_not_skipped(m, filter, o, n - 1, i, j);
        row_is_those_not_skipped(m, filter, o, n - 1, o.len() as int, i, j);
        let a = pairs(m, filter, o, n - 1);
        let b = pairs_with(m, filter, o, n - 1, o.len() as int);
        concat_contains(a, b, (i, j));
    }
}

proof fn row_is_those_not_skipped(
    m: Model,
    filter: PairFilter,
    o: Seq<CollisionObject>,
    r: int,
    n: int,
    i: int,
    j: int,
)
    ensures
        pairs_with(m, filter, o, r, n).contains((i, j)) <==> i == r && i < j < n && !skipped(
            m,
            filter,
            o[i],
            o[j],
        ),
    decreases n - r,
{
    if n > r + 1 {
        row_is_those_not_skipped(m, filter, o, r, n - 1, i, j);
        let a = pairs_with(m, filter, o, r, n - 1);
        if !skipped(m, filter, o[r], o[n - 1]) {
            concat_contains(a, seq![(r, n - 1)], (i, j));
            assert(a.push((r, n - 1)) =~= a + seq![(r, n - 1)]);
            assert(seq![(r, n - 1)][0] == (r, n - 1));
        }
    }
}

proof fn concat_contains(a: Seq<(int, int)>, b: Seq<(int, int)>, x: (int, int))
    ensures
        (a + b).contains(x) <==> a.contains(x) || b.contains(x),
{
    if a.contains(x) {
        let k = choose|k: int| 0 <= k < a.len() && a[k] == x;
        assert((a + b)[k] == x);
    }
    if b.contains(x) {
        let k = choose|k: int| 0 <= k < b.len() && b[k] == x;
        assert((a + b)[a.len() + k] == x);
    }
}

/// What is compared in a query.
pub struct Scene {
    pub objects: Seq<CollisionObject>,
    pub pairs: Seq<(int, int)>,
}

/// Whether the objects are placed for a configuration and the pairs are those not left out.
pub open spec fn is_scene<K: SpatialMath>(
    k: &K,
    m: Model,
    g: GeometryModel,
    q: Seq<Real>,
    filter: PairFilter,
    s: Scene,
) -> bool {
    &&& exists|d: Data|
        {
            &&& d.fits(m)
            &&& #[trigger] fk::all_placed(k, m, q, d)
            &&& placed_objects(k, m, g, d.oMi@, s.objects)
        }
    &&& s.pairs == pairs(m, filter, s.objects, s.objects.len() as int)
}

/// Places the objects and lists the pairs to compare.
fn build_scene<K: SpatialMath>(k: &K, model: &Model, gmodel: &GeometryModel, q: &[Real], filter: &PairFilter) -> (r: (
    Vec<CollisionObject>,
    Vec<(usize, usize)>,
))
    requires
        model.wf(),
        q@.len() == model.nq,
    ensures
        is_scene(
            k,
            *model,
            *gmodel,
            q@,
            *filter,
            (Scene { objects: r.0@, pairs: as_ints(r.1@) }),
        ),
        forall|i: int| 0 <= i < r.1@.len() ==> (#[trigger] r.1@[i]).0 < r.1@[i].1 < r.0@.len(),
        forall|i: int| 0 <= i < r.0@.len() ==> (#[trigger] r.0@[i]).index < gmodel.objects@.len(),
{
    let data = forward_kinematics(k, model, q);
    let objects = build_collision_objects(k, model, gmodel, &data);
    let list = list_pairs(model, filter, &objects);
    proof {
        assert(fk::all_placed(k, *model, q@, data));
        assert forall|i: int| 0 <= i < objects@.len() implies (#[trigger] objects@[i]).index
            < gmodel.objects@.len() by {
            let n = gmodel.objects@.len() as int;
            parts_bounded(*model, gmodel.objects@, n);
            assert(placed_object(
                k,
                data.oMi@,
                gmodel.objects@[parts(*model, gmodel.objects@, n)[i]],
                parts(*model, gmodel.objects@, n)[i],
                objects@[i],
            ));
        }
    }
    (objects, list)
}

proof fn parts_bounded(m: Model, g: Seq<GeometryObject>, n: int)
    requires
        0 <= n <= g.len(),
    ensures
        forall|i: int| 0 <= i < parts(m, g, n).len() ==> 0 <= #[trigger] parts(m, g, n)[i] < n,
    decreases n,
{
    if n > 0 {
        parts_bounded(m, g, n - 1);
        assert forall|i: int| 0 <= i < parts(m, g, n).len() implies 0 <= #[trigger] parts(m, g, n)[i]
            < n by {
            if i < parts(m, g, n - 1).len() {
                assert(parts(m, g, n)[i] == parts(m, g, n - 1)[i]);
            }
        }
    }
}

/// Whether `hits` tells for each pair whether the two overlap.
pub open spec fn tested<K: Proximity>(k: &K, g: GeometryModel, s: Scene, hits: Seq<Option<bool>>) -> bool {
    &&& hits.len() == s.pairs.len()
    &&& forall|i: int| 0 <= i < hits.len() ==> pair_tested(k, g, s, s.pairs[i], #[trigger] hits[i])
}

pub open spec fn pair_tested<K: Proximity>(
    k: &K,
    g: GeometryModel,
    s: Scene,
    p: (int, int),
    hit: Option<bool>,
) -> bool {
    let a = s.objects[p.0];
    let b = s.objects[p.1];
    call_ensures(
        K::intersect,
        (
            k,
            a.world_pose,
            &g.objects@[a.index as int],
            b.world_pose,
            &g.objects@[b.index as int],
        ),
        hit,
    )
}

/// The pairs among the first `n` that overlap.
pub open spec fn overlapping(s: Scene, hits: Seq<Option<bool>>, n: int) -> Seq<CollisionPair>
    decreases n,
{
    if n <= 0 {
        Seq::empty()
    } else if hits[n - 1] == Some(true) {
        overlapping(s, hits, n - 1).push(
            CollisionPair {
                a: s.objects[s.pairs[n - 1].0].index,
                b: s.objects[s.pairs[n - 1].1].index,
            },
        )
    } else {
        overlapping(s, hits, n - 1)
    }
}

/// Whether `r` are the overlapping pairs for a configuration.
pub open spec fn is_collision_list<K: SpatialMath + Proximity>(
    k: &K,
    m: Model,
    g: GeometryModel,
    q: Seq<Real>,
    filter: PairFilter,
    r: Seq<CollisionPair>,
) -> bool {
    exists|s: Scene, hits: Seq<Option<bool>>|
        {
            &&& #[trigger] is_scene(k, m, g, q, filter, s)
            &&& #[trigger] tested(k, g, s, hits)
            &&& r == overlapping(s, hits, hits.len() as int)
        }
}

/// Lists the overlapping pairs that are not left out.
pub fn filtered_collision_pairs<K: SpatialMath + Proximity>(
    k: &K,
    model: &Model,
    gmodel: &GeometryModel,
    q: &[Real],
    filter: &PairFilter,
) -> (r: Vec<CollisionPair>)
    requires
        model.wf(),
        q@.len() == model.nq,
    ensures
        is_collision_list(k, *model, *gmodel, q@, *filter, r@),
{
    let (o, list) = build_scene(k, model, gmodel, q, filter);
    let ghost s = Scene { objects: o@, pairs: as_ints(list@) };
    let ghost mut hits: Seq<Option<bool>> = Seq::empty();
    let mut r: Vec<CollisionPair> = Vec::new();
    for i in 0..list.len()
        invariant
            s == (Scene { objects: o@, pairs: as_ints(list@) }),
            forall|x: int| 0 <= x < list@.len() ==> (#[trigger] list@[x]).0 < list@[x].1 < o@.len(),
            forall|x: int| 0 <= x < o@.len() ==> (#[trigger] o@[x]).index < gmodel.objects@.len(),
            hits.len() == i,
            forall|x: int| 0 <= x < i ==> pair_tested(k, *gmodel, s, s.pairs[x], #[trigger] hits[x]),
            r@ == overlapping(s, hits, i as int),
    {
        assert(s.pairs[i as int] == (list@[i as int].0 as int, list@[i as int].1 as int));
        let a = o[list[i].0];
        let b = o[list[i].1];
        assert(o@[list@[i as int].0 as int].index < gmodel.objects@.len());
        assert(o@[list@[i as int].1 as int].index < gmodel.objects@.len());
        let hit = k.intersect(
            a.world_pose,
            &gmodel.objects[a.index],
            b.world_pose,
            &gmodel.objects[b.index],
        );
        let ghost h0 = hits;
        proof {
            hits = hits.push(hit);
            assert forall|x: int| 0 <= x < i + 1 implies pair_tested(
                k,
                *gmodel,
                s,
                s.pairs[x],
                #[trigger] hits[x],
            ) by {
                if x < i {
                    assert(hits[x] == h0[x]);
                }
            }
            overlapping_prefix(s, h0, hits, i as int);
        }
        if let Some(yes) = hit {
            if yes {
                r.push(CollisionPair { a: a.index, b: b.index });
            }
        }
    }
    assert(tested(k, *gmodel, s, hits));
    r
}

proof fn overlapping_prefix(s: Scene, a: Seq<Option<bool>>, b: Seq<Option<bool>>, n: int)
    requires
        0 <= n <= a.len(),
        n <= b.len(),
        forall|i: int| 0 <= i < n ==> (#[trigger] a[i]) == b[i],
    ensures
        overlapping(s, a, n) == overlapping(s, b, n),
    decreases n,
{
    if n > 0 {
        overlapping_prefix(s, a, b, n - 1);
        assert(a[n - 1] == b[n - 1]);
    }
}

proof fn parts_ascend(m: Model, g: Seq<GeometryObject>, n: int)
    requires
        0 <= n <= g.len(),
    ensures
        forall|i: int, j: int|
            0 <= i < j < parts(m, g, n).len() ==> #[trigger] parts(m, g, n)[i] < #[trigger] parts(m, g, n)[j],
    decreases n,
{
    if n > 0 {
        parts_ascend(m, g, n - 1);
        parts_bounded(m, g, n - 1);
        let p = parts(m, g, n - 1);
        assert forall|i: int, j: int| 0 <= i < j < parts(m, g, n).len() implies #[trigger] parts(m, g, n)[i]
            < #[trigger] parts(m, g, n)[j] by {
            assert(parts(m, g, n)[i] == p[i]);
            if j < p.len() {
                assert(parts(m, g, n)[j] == p[j]);
            }
        }
    }
}

/// Whether a pair of numbers comes before another.
pub open spec fn comes_before(p: (int, int), q: (int, int)) -> bool {
    p.0 < q.0 || (p.0 == q.0 && p.1 < q.1)
}

proof fn row_ascends(m: Model, filter: PairFilter, o: Seq<CollisionObject>, i: int, n: int)
    ensures
        forall|x: int| #![trigger pairs_with(m, filter, o, i, n)[x]]
            0 <= x < pairs_with(m, filter, o, i, n).len() ==> pairs_with(m, filter, o, i, n)[x].0 == i && i
                < pairs_with(m, filter, o, i, n)[x].1 < n,
        forall|x: int, y: int|
            0 <= x < y < pairs_with(m, filter, o, i, n).len() ==> comes_before(
                #[trigger] pairs_with(m, filter, o, i, n)[x],
                #[trigger] pairs_with(m, filter, o, i, n)[y],
            ),
    decreases n - i,
{
    if n > i + 1 {
        row_ascends(m, filter, o, i, n - 1);
        let a = pairs_with(m, filter, o, i, n - 1);
        let b = pairs_with(m, filter, o, i, n);
        assert forall|x: int| 0 <= x < b.len() implies b[x] == (if x < a.len() { a[x] } else { (i, n - 1) }) by {}
        assert forall|x: int, y: int| 0 <= x < y < b.len() implies comes_before(#[trigger] b[x], #[trigger] b[y]) by {
            assert(b[x] == a[x]);
            if y < a.len() {
                assert(b[y] == a[y]);
            }
        }
    }
}

proof fn pairs_ascend(m: Model, filter: PairFilter, o: Seq<CollisionObject>, n: int)
    requires
        0 <= n <= o.len(),
    ensures
        forall|x: int| #![trigger pairs(m, filter, o, n)[x]]
            0 <= x < pairs(m, filter, o, n).len() ==> 0 <= pairs(m, filter, o, n)[x].0 < n && pairs(m, filter, o, n)[x].0
                < pairs(m, filter, o, n)[x].1 < o.len(),
        forall|x: int, y: int|
            0 <= x < y < pairs(m, filter, o, n).len() ==> comes_before(
                #[trigger] pairs(m, filter, o, n)[x],
                #[trigger] pairs(m, filter, o, n)[y],
            ),
    decreases n,
{
    if n > 0 {
        pairs_ascend(m, filter, o, n - 1);
        row_ascends(m, filter, o, n - 1, o.len() as int);
        let a = pairs(m, filter, o, n - 1);
        let b = pairs_with(m, filter, o, n - 1, o.len() as int);
        let c = pairs(m, filter, o, n);
        assert forall|x: int| 0 <= x < c.len() implies #[trigger] c[x] == (if x < a.len() {
            a[x]
        } else {
            b[x - a.len()]
        }) by {}
        assert forall|x: int, y: int| 0 <= x < y < c.len() implies comes_before(#[trigger] c[x], #[trigger] c[y]) by {
            if x < a.len() {
                assert(c[x] == a[x]);
            } else {
                assert(c[x] == b[x - a.len()]);
            }
            if y < a.len() {
                assert(c[y] == a[y]);
            } else {
                assert(c[y] == b[y - a.len()]);
            }
        }
    }
}

/// The numbers of a pair.
pub open spec fn numbers_of(p: CollisionPair) -> (int, int) {
    (p.a as int, p.b as int)
}

proof fn overlaps_ascend(s: Scene, hits: Seq<Option<bool>>, n: int, limit: int)
    requires
        0 <= n <= s.pairs.len(),
        forall|x: int| 0 <= x < s.pairs.len() ==> 0 <= (#[trigger] s.pairs[x]).0 < s.pairs[x].1 < s.objects.len(),
        forall|x: int, y: int|
            0 <= x < y < s.pairs.len() ==> comes_before(#[trigger] s.pairs[x], #[trigger] s.pairs[y]),
        forall|x: int, y: int|
            0 <= x < y < s.objects.len() ==> (#[trigger] s.objects[x]).index < (#[trigger] s.objects[y]).index < limit,
    ensures
        forall|x: int| #![trigger overlapping(s, hits, n)[x]]
            0 <= x < overlapping(s, hits, n).len() ==> overlapping(s, hits, n)[x].a < overlapping(s, hits, n)[x].b
                < limit,
        forall|x: int, t: int|
            0 <= x < overlapping(s, hits, n).len() && n <= t < s.pairs.len() ==> comes_before(
                numbers_of(#[trigger] overlapping(s, hits, n)[x]),
                (s.objects[(#[trigger] s.pairs[t]).0].index as int, s.objects[s.pairs[t].1].index as int),
            ),
        forall|x: int, y: int|
            0 <= x < y < overlapping(s, hits, n).len() ==> comes_before(
                numbers_of(#[trigger] overlapping(s, hits, n)[x]),
                numbers_of(#[trigger] overlapping(s, hits, n)[y]),
            ),
    decreases n,
{
    if n > 0 {
        overlaps_ascend(s, hits, n - 1, limit);
        let a = overlapping(s, hits, n - 1);
        let b = overlapping(s, hits, n);
        let p = s.pairs[n - 1];
        assert(s.objects[p.0].index < s.objects[p.1].index < limit);
        let new = (s.objects[p.0].index as int, s.objects[p.1].index as int);
        assert forall|x: int| 0 <= x < a.len() implies comes_before(numbers_of(#[trigger] a[x]), new) by {
            assert(s.pairs[n - 1] == p);
        }
        assert forall|t: int| n <= t < s.pairs.len() implies comes_before(
            new,
            (s.objects[(#[trigger] s.pairs[t]).0].index as int, s.objects[s.pairs[t].1].index as int),
        ) by {
            assert(comes_before(s.pairs[n - 1], s.pairs[t]));
            if p.0 < s.pairs[t].0 {
                assert(s.objects[p.0].index < s.objects[s.pairs[t].0].index);
            } else {
                assert(s.objects[p.1].index < s.objects[s.pairs[t].1].index);
            }
        }
        if hits[n - 1] == Some(true) {
            assert(forall|x: int| 0 <= x < a.len() ==> #[trigger] b[x] == a[x]);
            assert(numbers_of(b[a.len() as int]) == new);
        } else {
            assert(b == a);
        }
    }
}

/// A list of collisions names each pair once, the lesser number first, in ascending order.
pub proof fn collisions_ascend<K: SpatialMath + Proximity>(
    k: &K,
    m: Model,
    g: GeometryModel,
    q: Seq<Real>,
    filter: PairFilter,
    r: Seq<CollisionPair>,
)
    requires
        is_collision_list(k, m, g, q, filter, r),
    ensures
        forall|i: int| 0 <= i < r.len() ==> (#[trigger] r[i]).a < r[i].b < g.objects@.len(),
        forall|i: int, j: int|
            0 <= i < j < r.len() ==> comes_before(numbers_of(#[trigger] r[i]), numbers_of(#[trigger] r[j])),
{
    let (s, hits) = choose|s: Scene, hits: Seq<Option<bool>>|
        {
            &&& #[trigger] is_scene(k, m, g, q, filter, s)
            &&& #[trigger] tested(k, g, s, hits)
            &&& r == overlapping(s, hits, hits.len() as int)
        };
    let d = choose|d: Data|
        {
            &&& d.fits(m)
            &&& #[trigger] fk::all_placed(k, m, q, d)
            &&& placed_objects(k, m, g, d.oMi@, s.objects)
        };
    let n = g.objects@.len() as int;
    let p = parts(m, g.objects@, n);
    parts_ascend(m, g.objects@, n);
    parts_bounded(m, g.objects@, n);
    assert forall|x: int, y: int| 0 <= x < y < s.objects.len() implies (#[trigger] s.objects[x]).index
        < (#[trigger] s.objects[y]).index < n by {
        assert(placed_object(k, d.oMi@, g.objects@[p[x]], p[x], s.objects[x]));
        assert(placed_object(k, d.oMi@, g.objects@[p[y]], p[y], s.objects[y]));
    }
    pairs_ascend(m, filter, s.objects, s.objects.len() as int);
    overlaps_ascend(s, hits, hits.len() as int, n);
}

proof fn like_filters_pair_alike(m: Model, f: PairFilter, h: PairFilter, o: Seq<CollisionObject>, i: int, n: int)
    requires
        0 <= i,
        n <= o.len(),
        forall|j: int| i < j < o.len() ==> skipped(m, f, o[i], #[trigger] o[j]) == skipped(m, h, o[i], o[j]),
    ensures
        pairs_with(m, f, o, i, n) == pairs_with(m, h, o, i, n),
    decreases n - i,
{
    if n > i + 1 {
        like_filters_pair_alike(m, f, h, o, i, n - 1);
        assert(skipped(m, f, o[i], o[n - 1]) == skipped(m, h, o[i], o[n - 1]));
    }
}

/// The matrix of the adjacent links leaves out the same pairs of placed objects as the flag that
/// ignores adjacent links.
pub proof fn adjacent_matrix_is_adjacency<K: SpatialMath>(
    k: &K,
    m: Model,
    g: GeometryModel,
    poses: Seq<Placement>,
    o: Seq<CollisionObject>,
    acm: AllowedCollisionMatrix,
    n: int,
)
    requires
        placed_objects(k, m, g, poses, o),
        allows_adjacent(m, g, acm),
        0 <= n <= o.len(),
    ensures
        pairs(m, matrix_filter(Some(&acm)), o, n) == pairs(m, adjacency_filter(true), o, n),
    decreases n,
{
    if n > 0 {
        adjacent_matrix_is_adjacency(k, m, g, poses, o, acm, n - 1);
        let f = matrix_filter(Some(&acm));
        let h = adjacency_filter(true);
        let p = parts(m, g.objects@, g.objects@.len() as int);
        parts_ascend(m, g.objects@, g.objects@.len() as int);
        parts_bounded(m, g.objects@, g.objects@.len() as int);
        assert(placed_object(k, poses, g.objects@[p[n - 1]], p[n - 1], o[n - 1]));
        assert forall|j: int| n - 1 < j < o.len() implies skipped(m, f, o[n - 1], #[trigger] o[j]) == skipped(
            m,
            h,
            o[n - 1],
            o[j],
        ) by {
            assert(placed_object(k, poses, g.objects@[p[j]], p[j], o[j]));
            assert(p[n - 1] < p[j]);
            assert(acm.allows(o[n - 1].index, o[j].index) <==> adjacent(
                m,
                o[n - 1].parent_joint,
                o[j].parent_joint,
            ));
        }
        like_filters_pair_alike(m, f, h, o, n - 1, o.len() as int);
    }
}

/// Whether `acm` is the matrix of the adjacent links.
pub open spec fn allows_adjacent(m: Model, g: GeometryModel, acm: AllowedCollisionMatrix) -> bool {
    forall|x: usize, y: usize| #[trigger]
        acm.allows(x, y) <==> x != y && x < g.objects@.len() && y < g.objects@.len() && adjacent(
            m,
            g.objects@[x as int].parent_joint,
            g.objects@[y as int].parent_joint,
        )
}

proof fn adjacent_matrix_shows_the_same<K: SpatialMath>(
    k: &K,
    m: Model,
    g: GeometryModel,
    q: Seq<Real>,
    acm: AllowedCollisionMatrix,
    s: Scene,
)
    requires
        allows_adjacent(m, g, acm),
    ensures
        is_scene(k, m, g, q, matrix_filter(Some(&acm)), s) == is_scene(k, m, g, q, adjacency_filter(true), s),
{
    if exists|d: Data|
        {
            &&& d.fits(m)
            &&& #[trigger] fk::all_placed(k, m, q, d)
            &&& placed_objects(k, m, g, d.oMi@, s.objects)
        } {
        let d = choose|d: Data|
            {
                &&& d.fits(m)
                &&& #[trigger] fk::all_placed(k, m, q, d)
                &&& placed_objects(k, m, g, d.oMi@, s.objects)
            };
        adjacent_matrix_is_adjacency(k, m, g, d.oMi@, s.objects, acm, s.objects.len() as int);
    }
}

/// A list is one of the collisions that the matrix of the adjacent links leaves exactly if it is one
/// of those that the flag leaves which ignores adjacent links.
pub proof fn adjacent_matrix_lists_the_same<K: SpatialMath + Proximity>(
    k: &K,
    m: Model,
    g: GeometryModel,
    q: Seq<Real>,
    acm: AllowedCollisionMatrix,
    r: Seq<CollisionPair>,
)
    requires
        allows_adjacent(m, g, acm),
    ensures
        is_collision_list(k, m, g, q, matrix_filter(Some(&acm)), r) <==> is_collision_list(
            k,
            m,
            g,
            q,
            adjacency_filter(true),
            r,
        ),
{
    if is_collision_list(k, m, g, q, matrix_filter(Some(&acm)), r) {
        let (s, hits) = choose|s: Scene, hits: Seq<Option<bool>>|
            {
                &&& #[trigger] is_scene(k, m, g, q, matrix_filter(Some(&acm)), s)
                &&& #[trigger] tested(k, g, s, hits)
                &&& r == overlapping(s, hits, hits.len() as int)
            };
        adjacent_matrix_shows_the_same(k, m, g, q, acm, s);
        assert(is_scene(k, m, g, q, adjacency_filter(true), s) && tested(k, g, s, hits));
    }
    if is_collision_list(k, m, g, q, adjacency_filter(true), r) {
        let (s, hits) = choose|s: Scene, hits: Seq<Option<bool>>|
            {
                &&& #[trigger] is_scene(k, m, g, q, adjacency_filter(true), s)
                &&& #[trigger] tested(k, g, s, hits)
                &&& r == overlapping(s, hits, hits.len() as int)
            };
        adjacent_matrix_shows_the_same(k, m, g, q, acm, s);
        assert(is_scene(k, m, g, q, matrix_filter(Some(&acm)), s) && tested(k, g, s, hits));
    }
}

/// Whether the same is told of placed objects each time.
pub open spec fn tests_alike<K: Proximity>(k: &K) -> bool {
    forall|
        a: Placement,
        oa: GeometryObject,
        b: Placement,
        ob: GeometryObject,
        x: Option<bool>,
        y: Option<bool>,
    | #[trigger]
        call_ensures(K::intersect, (k, a, &oa, b, &ob), x) && #[trigger] call_ensures(
            K::intersect,
            (k, a, &oa, b, &ob),
            y,
        ) ==> x == y
}

/// The collisions of a configuration are the same each time, as far as the arithmetic and the
/// queries repeat themselves.
pub proof fn collisions_repeat_themselves<K: SpatialMath + Proximity>(
    k: &K,
    m: Model,
    g: GeometryModel,
    q: Seq<Real>,
    filter: PairFilter,
    a: Seq<CollisionPair>,
    b: Seq<CollisionPair>,
)
    requires
        m.wf(),
        spatial::places_alike(k),
        tests_alike(k),
        is_collision_list(k, m, g, q, filter, a),
        is_collision_list(k, m, g, q, filter, b),
    ensures
        a == b,
{
    let (s, x) = choose|s: Scene, hits: Seq<Option<bool>>|
        {
            &&& #[trigger] is_scene(k, m, g, q, filter, s)
            &&& #[trigger] tested(k, g, s, hits)
            &&& a == overlapping(s, hits, hits.len() as int)
        };
    let (t, y) = choose|t: Scene, hits: Seq<Option<bool>>|
        {
            &&& #[trigger] is_scene(k, m, g, q, filter, t)
            &&& #[trigger] tested(k, g, t, hits)
            &&& b == overlapping(t, hits, hits.len() as int)
        };
    let d = choose|d: Data|
        {
            &&& d.fits(m)
            &&& #[trigger] fk::all_placed(k, m, q, d)
            &&& placed_objects(k, m, g, d.oMi@, s.objects)
        };
    let e = choose|e: Data|
        {
            &&& e.fits(m)
            &&& #[trigger] fk::all_placed(k, m, q, e)
            &&& placed_objects(k, m, g, e.oMi@, t.objects)
        };
    fk::placing_repeats_itself(k, m, q, d, e);
    let p = parts(m, g.objects@, g.objects@.len() as int);
    assert forall|i: int| 0 <= i < p.len() implies s.objects[i] == t.objects[i] by {
        assert(placed_object(k, d.oMi@, g.objects@[p[i]], p[i], s.objects[i]));
        assert(placed_object(k, e.oMi@, g.objects@[p[i]], p[i], t.objects[i]));
    }
    assert(s.objects =~= t.objects);
    assert(s == t);
    assert forall|i: int| 0 <= i < x.len() implies (#[trigger] x[i]) == y[i] by {
        assert(pair_tested(k, g, s, s.pairs[i], x[i]));
        assert(pair_tested(k, g, t, t.pairs[i], y[i]));
    }
    overlapping_prefix(s, x, y, x.len() as int);
}

/// The matrix of the adjacent links leaves the collisions that the flag leaves which ignores adjacent
/// links, and no matrix those that are there without the flag, as far as the arithmetic and the
/// queries repeat themselves.
pub proof fn adjacent_matrix_is_the_flag<K: SpatialMath + Proximity>(
    k: &K,
    m: Model,
    g: GeometryModel,
    q: Seq<Real>,
    acm: AllowedCollisionMatrix,
    a: Seq<CollisionPair>,
    b: Seq<CollisionPair>,
)
    requires
        m.wf(),
        spatial::places_alike(k),
        tests_alike(k),
        allows_adjacent(m, g, acm),
    ensures
        is_collision_list(k, m, g, q, matrix_filter(Some(&acm)), a) && is_collision_list(
            k,
            m,
            g,
            q,
            adjacency_filter(true),
            b,
        ) ==> a == b,
        is_collision_list(k, m, g, q, matrix_filter(None), a) && is_collision_list(
            k,
            m,
            g,
            q,
            adjacency_filter(false),
            b,
        ) ==> a == b,
{
    adjacent_matrix_lists_the_same(k, m, g, q, acm, a);
    if is_collision_list(k, m, g, q, adjacency_filter(true), a) && is_collision_list(
        k,
        m,
        g,
        q,
        adjacency_filter(true),
        b,
    ) {
        collisions_repeat_themselves(k, m, g, q, adjacency_filter(true), a, b);
    }
    if is_collision_list(k, m, g, q, adjacency_filter(false), a) && is_collision_list(
        k,
        m,
        g,
        q,
        adjacency_filter(false),
        b,
    ) {
        collisions_repeat_themselves(k, m, g, q, adjacency_filter(false), a, b);
    }
}

/// The filter that the flag stands for.
pub open spec fn adjacency_filter<'a>(ignore_adjacent_links: bool) -> PairFilter<'a> {
    if ignore_adjacent_links {
        PairFilter::SkipAdjacent
    } else {
        PairFilter::All
    }
}

/// The filter that a matrix stands for.
pub open spec fn matrix_filter<'a>(acm: Option<&'a AllowedCollisionMatrix>) -> PairFilter<'a> {
    match acm {
        Some(m) => PairFilter::SkipAllowed(m),
        None => PairFilter::All,
    }
}

fn make_adjacency_filter<'a>(ignore_adjacent_links: bool) -> (r: PairFilter<'a>)
    ensures
        r == adjacency_filter(ignore_adjacent_links),
{
    if ignore_adjacent_links {
        PairFilter::SkipAdjacent
    } else {
        PairFilter::All
    }
}

fn make_matrix_filter<'a>(acm: Option<&'a AllowedCollisionMatrix>) -> (r: PairFilter<'a>)
    ensures
        r == matrix_filter(acm),
{
    match acm {
        Some(m) => PairFilter::SkipAllowed(m),
        None => PairFilter::All,
    }
}

/// Lists the overlapping pairs, with or without those on connected joints.
pub fn collision_pairs<K: SpatialMath + Proximity>(
    k: &K,
    model: &Model,
    gmodel: &GeometryModel,
    q: &[Real],
    ignore_adjacent_links: bool,
) -> (r: Vec<CollisionPair>)
    requires
        model.wf(),
        q@.len() == model.nq,
    ensures
        is_collision_list(k, *model, *gmodel, q@, adjacency_filter(ignore_adjacent_links), r@),
{
    filtered_collision_pairs(k, model, gmodel, q, &make_adjacency_filter(ignore_adjacent_links))
}

/// Tells whether any two objects overlap.
pub fn has_collision<K: SpatialMath + Proximity>(
    k: &K,
    model: &Model,
    gmodel: &GeometryModel,
    q: &[Real],
    ignore_adjacent_links: bool,
) -> (r: bool)
    requires
        model.wf(),
        q@.len() == model.nq,
    ensures
        exists|l: Seq<CollisionPair>| #[trigger]
            is_collision_list(k, *model, *gmodel, q@, adjacency_filter(ignore_adjacent_links), l) && r
                == (l.len() > 0),
{
    let l = collision_pairs(k, model, gmodel, q, ignore_adjacent_links);
    l.len() > 0
}

/// Lists the overlapping pairs but for those of the matrix.
pub fn collision_pairs_acm<K: SpatialMath + Proximity>(
    k: &K,
    model: &Model,
    gmodel: &GeometryModel,
    q: &[Real],
    acm: Option<&AllowedCollisionMatrix>,
) -> (r: Vec<CollisionPair>)
    requires
        model.wf(),
        q@.len() == model.nq,
    ensures
        is_collision_list(k, *model, *gmodel, q@, matrix_filter(acm), r@),
{
    filtered_collision_pairs(k, model, gmodel, q, &make_matrix_filter(acm))
}

/// Tells whether any two objects overlap but for the pairs of the matrix.
pub fn has_collision_acm<K: SpatialMath + Proximity>(
    k: &K,
    model: &Model,
    gmodel: &GeometryModel,
    q: &[Real],
    acm: Option<&AllowedCollisionMatrix>,
) -> (r: bool)
    requires
        model.wf(),
        q@.len() == model.nq,
    ensures
        exists|l: Seq<CollisionPair>| #[trigger]
            is_collision_list(k, *model, *gmodel, q@, matrix_filter(acm), l) && r == (l.len() > 0),
{
    let l = collision_pairs_acm(k, model, gmodel, q, acm);
    l.len() > 0
}

// ── Distances ──

/// The distance that was told, or infinity.
pub open spec fn or_infinity(d: Option<Real>) -> Real {
    match d {
        Some(x) => x,
        None => Real::infinity(),
    }
}

pub open spec fn pair_measured<K: Proximity>(
    k: &K,
    g: GeometryModel,
    s: Scene,
    p: (int, int),
    r: Real,
) -> bool {
    let a = s.objects[p.0];
    let b = s.objects[p.1];
    exists|d: Option<Real>| #[trigger]
        call_ensures(
            K::separation,
            (
                k,
                a.world_pose,
                &g.objects@[a.index as int],
                b.world_pose,
                &g.objects@[b.index as int],
            ),
            d,
        ) && r == or_infinity(d)
}

/// Whether `d` gives for each pair how far apart the two are.
pub open spec fn measured<K: Proximity>(k: &K, g: GeometryModel, s: Scene, d: Seq<Real>) -> bool {
    &&& d.len() == s.pairs.len()
    &&& forall|i: int| 0 <= i < d.len() ==> pair_measured(k, g, s, s.pairs[i], #[trigger] d[i])
}

/// What is compared in a query, and how far apart the pairs are.
pub open spec fn is_measured_scene<K: SpatialMath + Proximity>(
    k: &K,
    m: Model,
    g: GeometryModel,
    q: Seq<Real>,
    filter: PairFilter,
    s: Scene,
    d: Seq<Real>,
) -> bool {
    is_scene(k, m, g, q, filter, s) && measured(k, g, s, d)
}

/// Measures the pairs that are not left out: numbers of the objects and distance.
fn measure_pairs<K: SpatialMath + Proximity>(
    k: &K,
    model: &Model,
    gmodel: &GeometryModel,
    q: &[Real],
    filter: &PairFilter,
) -> (r: (Vec<Real>, Vec<CollisionPair>, Ghost<Scene>))
    requires
        model.wf(),
        q@.len() == model.nq,
    ensures
        is_measured_scene(k, *model, *gmodel, q@, *filter, r.2@, r.0@),
        r.1@.len() == r.0@.len(),
        forall|i: int|
            0 <= i < r.1@.len() ==> (#[trigger] r.1@[i]) == (CollisionPair {
                a: r.2@.objects[r.2@.pairs[i].0].index,
                b: r.2@.objects[r.2@.pairs[i].1].index,
            }),
{
    let (o, list) = build_scene(k, model, gmodel, q, filter);
    let ghost s = Scene { objects: o@, pairs: as_ints(list@) };
    let mut ds: Vec<Real> = Vec::new();
    let mut names: Vec<CollisionPair> = Vec::new();
    for i in 0..list.len()
        invariant
            s == (Scene { objects: o@, pairs: as_ints(list@) }),
            forall|x: int| 0 <= x < list@.len() ==> (#[trigger] list@[x]).0 < list@[x].1 < o@.len(),
            forall|x: int| 0 <= x < o@.len() ==> (#[trigger] o@[x]).index < gmodel.objects@.len(),
            ds@.len() == i,
            names@.len() == i,
            forall|x: int| 0 <= x < i ==> pair_measured(k, *gmodel, s, s.pairs[x], #[trigger] ds@[x]),
            forall|x: int|
                0 <= x < i ==> (#[trigger] names@[x]) == (CollisionPair {
                    a: s.objects[s.pairs[x].0].index,
                    b: s.objects[s.pairs[x].1].index,
                }),
    {
        assert(s.pairs[i as int] == (list@[i as int].0 as int, list@[i as int].1 as int));
        let a = o[list[i].0];
        let b = o[list[i].1];
        assert(o@[list@[i as int].0 as int].index < gmodel.objects@.len());
        assert(o@[list@[i as int].1 as int].index < gmodel.objects@.len());
        let d = k.separation(
            a.world_pose,
            &gmodel.objects[a.index],
            b.world_pose,
            &gmodel.objects[b.index],
        );
        let x = match d {
            Some(x) => x,
            None => Real::infinity(),
        };
        assert(pair_measured(k, *gmodel, s, s.pairs[i as int], x));
        ds.push(x);
        names.push(CollisionPair { a: a.index, b: b.index });
    }
    assert(measured(k, *gmodel, s, ds@));
    (ds, names, Ghost(s))
}

/// The smallest of the first `n` distances.
pub open spec fn smallest(d: Seq<Real>, n: int) -> Option<Real>
    decreases n,
{
    if n <= 0 {
        None
    } else {
        match smallest(d, n - 1) {
            Some(x) => Some(x.smaller(d[n - 1])),
            None => Some(d[n - 1]),
        }
    }
}

/// The smallest distance of any two objects, with or without those on connected
/// joints; `None` where there are no two to compare.
pub fn minimum_distance<K: SpatialMath + Proximity>(
    k: &K,
    model: &Model,
    gmodel: &GeometryModel,
    q: &[Real],
    ignore_adjacent_links: bool,
) -> (r: Option<Real>)
    requires
        model.wf(),
        q@.len() == model.nq,
    ensures
        exists|s: Scene, d: Seq<Real>| #[trigger]
            is_measured_scene(
                k,
                *model,
                *gmodel,
                q@,
                adjacency_filter(ignore_adjacent_links),
                s,
                d,
            ) && r == smallest(d, d.len() as int),
{
    let filter = make_adjacency_filter(ignore_adjacent_links);
    let (d, _, s) = measure_pairs(k, model, gmodel, q, &filter);
    let mut r: Option<Real> = None;
    for i in 0..d.len()
        invariant
            r == smallest(d@, i as int),
    {
        r = match r {
            Some(x) => Some(x.min(d[i])),
            None => Some(d[i]),
        };
    }
    assert(is_measured_scene(
        k,
        *model,
        *gmodel,
        q@,
        adjacency_filter(ignore_adjacent_links),
        s@,
        d@,
    ));
    r
}

/// Number of the first pair among the first `n` that is closer than all before it.
pub open spec fn closest(d: Seq<Real>, n: int) -> Option<int>
    decreases n,
{
    if n <= 0 {
        None
    } else {
        match closest(d, n - 1) {
            Some(b) => if d[n - 1].below(d[b]) {
                Some(n - 1)
            } else {
                Some(b)
            },
            None => Some(0),
        }
    }
}

/// The closest pair but for those of the matrix, and its distance; `None` where there
/// are no two to compare.
pub fn minimum_distance_acm<K: SpatialMath + Proximity>(
    k: &K,
    model: &Model,
    gmodel: &GeometryModel,
    q: &[Real],
    acm: Option<&AllowedCollisionMatrix>,
) -> (r: Option<(CollisionPair, Real)>)
    requires
        model.wf(),
        q@.len() == model.nq,
    ensures
        exists|s: Scene, d: Seq<Real>| #[trigger]
            is_measured_scene(k, *model, *gmodel, q@, matrix_filter(acm), s, d) && match closest(
                d,
                d.len() as int,
            ) {
                Some(i) => r == Some(
                    (
                        CollisionPair {
                            a: s.objects[s.pairs[i].0].index,
                            b: s.objects[s.pairs[i].1].index,
                        },
                        d[i],
                    ),
                ),
                None => r is None,
            },
{
    let filter = make_matrix_filter(acm);
    let (d, names, s) = measure_pairs(k, model, gmodel, q, &filter);
    let mut best: Option<usize> = None;
    for i in 0..d.len()
        invariant
            match best {
                Some(b) => b < i && closest(d@, i as int) == Some(b as int),
                None => closest(d@, i as int) is None && i == 0,
            },
    {
        best = match best {
            Some(b) => if d[i].lt(d[b]) {
                Some(i)
            } else {
                Some(b)
            },
            None => Some(i),
        };
    }
    assert(is_measured_scene(k, *model, *gmodel, q@, matrix_filter(acm), s@, d@));
    match best {
        Some(b) => Some((names[b], d[b])),
        None => None,
    }
}

/// The closest pair is at most as far apart as any other, when all distances are numbers.
pub proof fn closest_is_least(d: Seq<Real>, n: int, i: int)
    requires
        0 <= i < n <= d.len(),
        forall|j: int| 0 <= j < n ==> !(#[trigger] d[j]).nan(),
    ensures
        closest(d, n) matches Some(b) && 0 <= b < n && d[b].at_most(d[i]),
    decreases n,
{
    reveal_with_fuel(closest, 2);
    assert(!d[i].nan() && !d[n - 1].nan());
    if n > 1 {
        if i < n - 1 {
            closest_is_least(d, n - 1, i);
        } else {
            closest_is_least(d, n - 1, 0);
        }
    }
}

// ── Potential ──

/// Whether `totals` adds up half the squares of how far each pair is within the margin.
pub open spec fn accumulated<K: SpatialMath + Proximity>(
    k: &K,
    d: Seq<Real>,
    margin: Real,
    totals: Seq<Real>,
) -> bool {
    &&& totals.len() == d.len() + 1
    &&& totals[0] == Real::zero()
    &&& forall|i: int| 0 <= i < d.len() ==> #[trigger] penalised(k, d[i], margin, totals[i], totals[i + 1])
}

pub open spec fn penalised<K: SpatialMath + Proximity>(
    k: &K,
    d: Real,
    margin: Real,
    before: Real,
    after: Real,
) -> bool {
    exists|x: Real| #[trigger]
        call_ensures(K::difference, (k, margin, d), x) && call_ensures(
            K::add_half_square,
            (k, before, x.larger(Real::zero())),
            after,
        )
}

/// Whether `r` is the collision potential of a configuration.
pub open spec fn is_potential<K: SpatialMath + Proximity>(
    k: &K,
    m: Model,
    g: GeometryModel,
    q: Seq<Real>,
    filter: PairFilter,
    margin: Real,
    r: Real,
) -> bool {
    exists|s: Scene, d: Seq<Real>, totals: Seq<Real>|
        {
            &&& #[trigger] is_measured_scene(k, m, g, q, filter, s, d)
            &&& #[trigger] accumulated(k, d, margin, totals)
            &&& r == totals.last()
        }
}

/// Potential that grows as pairs come closer than the margin: the sum of half the
/// squares of what is missing to the margin.
pub fn collision_potential<K: SpatialMath + Proximity>(
    k: &K,
    model: &Model,
    gmodel: &GeometryModel,
    q: &[Real],
    acm: Option<&AllowedCollisionMatrix>,
    safety_margin: Real,
) -> (r: Real)
    requires
        model.wf(),
        q@.len() == model.nq,
    ensures
        is_potential(k, *model, *gmodel, q@, matrix_filter(acm), safety_margin, r),
{
    let filter = make_matrix_filter(acm);
    let (d, _, s) = measure_pairs(k, model, gmodel, q, &filter);
    let mut total = Real::zero();
    let ghost mut totals: Seq<Real> = seq![total];
    for i in 0..d.len()
        invariant
            totals.len() == i + 1,
            totals[0] == Real::zero(),
            totals.last() == total,
            forall|j: int|
                0 <= j < i ==> #[trigger] penalised(k, d@[j], safety_margin, totals[j], totals[j + 1]),
    {
        let x = k.difference(safety_margin, d[i]);
        let ghost t0 = totals;
        let before = total;
        total = k.add_half_square(before, x.max(Real::zero()));
        proof {
            totals = totals.push(total);
            assert(penalised(k, d@[i as int], safety_margin, before, total));
            assert forall|j: int| 0 <= j < i + 1 implies #[trigger] penalised(
                k,
                d@[j],
                safety_margin,
                totals[j],
                totals[j + 1],
            ) by {
                if j < i {
                    assert(penalised(k, d@[j], safety_margin, t0[j], t0[j + 1]));
                }
            }
        }
    }
    proof {
        assert(is_measured_scene(k, *model, *gmodel, q@, matrix_filter(acm), s@, d@));
        assert(accumulated(k, d@, safety_margin, totals));
    }
    total
}

/// Bits of two.
pub const TWO: u64 = 0x4000_0000_0000_0000;

/// Whether `r` is the slope of the potential in the direction of the `i`-th number,
/// from the difference of two nearby configurations.
pub open spec fn slope<K: SpatialMath + Proximity>(
    k: &K,
    m: Model,
    g: GeometryModel,
    q: Seq<Real>,
    filter: PairFilter,
    margin: Real,
    eps: Real,
    i: int,
    r: Real,
) -> bool {
    exists|up: Real, down: Real, high: Real, low: Real, rise: Real, run: Real|
        {
            &&& #[trigger] call_ensures(K::sum, (k, q[i], eps), up)
            &&& #[trigger] call_ensures(K::difference, (k, q[i], eps), down)
            &&& #[trigger] is_potential(k, m, g, q.update(i, up), filter, margin, high)
            &&& #[trigger] is_potential(k, m, g, q.update(i, down), filter, margin, low)
            &&& #[trigger] call_ensures(K::difference, (k, high, low), rise)
            &&& #[trigger] call_ensures(K::product, (k, Real { bits: TWO }, eps), run)
            &&& call_ensures(K::quotient, (k, rise, run), r)
        }
}

fn with_entry(q: &[Real], i: usize, x: Real) -> (r: Vec<Real>)
    requires
        i < q@.len(),
    ensures
        r@ == q@.update(i as int, x),
{
    let mut r: Vec<Real> = Vec::new();
    for j in 0..q.len()
        invariant
            r@ == q@.take(j as int),
    {
        r.push(q[j]);
        assert(q@.take(j as int).push(q@[j as int]) =~= q@.take(j + 1));
    }
    assert(q@.take(q@.len() as int) =~= q@);
    r.set(i, x);
    r
}

/// Gradient of the collision potential by central differences, one number for each
/// of the velocity.
pub fn collision_potential_gradient<K: SpatialMath + Proximity>(
    k: &K,
    model: &Model,
    gmodel: &GeometryModel,
    q: &[Real],
    acm: Option<&AllowedCollisionMatrix>,
    safety_margin: Real,
    eps: Real,
) -> (grad: Vec<Real>)
    requires
        model.wf(),
        q@.len() == model.nq,
    ensures
        grad@.len() == model.nv,
        forall|i: int|
            0 <= i < model.nv ==> slope(
                k,
                *model,
                *gmodel,
                q@,
                matrix_filter(acm),
                safety_margin,
                eps,
                i,
                #[trigger] grad@[i],
            ),
{
    proof {
        crate::model::nv_at_most_nq(model.joints@, model.joints@.len() as int);
    }
    let mut grad: Vec<Real> = Vec::new();
    for i in 0..model.nv
        invariant
            model.wf(),
            q@.len() == model.nq,
            model.nv <= model.nq,
            grad@.len() == i,
            forall|j: int|
                0 <= j < i ==> slope(
                    k,
                    *model,
                    *gmodel,
                    q@,
                    matrix_filter(acm),
                    safety_margin,
                    eps,
                    j,
                    #[trigger] grad@[j],
                ),
    {
        let up = k.sum(q[i], eps);
        let down = k.difference(q[i], eps);
        let q_plus = with_entry(q, i, up);
        let q_minus = with_entry(q, i, down);
        let high = collision_potential(k, model, gmodel, q_plus.as_slice(), acm, safety_margin);
        let low = collision_potential(k, model, gmodel, q_minus.as_slice(), acm, safety_margin);
        let rise = k.difference(high, low);
        let run = k.product(Real { bits: TWO }, eps);
        let r = k.quotient(rise, run);
        assert(slope(
            k,
            *model,
            *gmodel,
            q@,
            matrix_filter(acm),
            safety_margin,
            eps,
            i as int,
            r,
        ));
        grad.push(r);
    }
    grad
}

// ── Where the shapes are ──

/// The point at the given coordinates.
pub open spec fn point(x: real, y: real, z: real) -> Seq<real> {
    seq![x, y, z]
}

/// Whether `carry` says where placements take points: one seen through another takes a point where the
/// two take it one after the other, the identity leaves it, and a quarter turn about x, that is by the
/// number closest to half of pi, takes the y axis to the z axis and the z axis to the y axis reversed.
pub open spec fn carries_points<K: SpatialMath>(k: &K, carry: spec_fn(Placement, Seq<real>) -> Seq<real>) -> bool {
    &&& forall|a: Placement, b: Placement, r: Placement, p: Seq<real>|
        #![trigger call_ensures(K::compose, (k, a, b), r), carry(r, p)]
        call_ensures(K::compose, (k, a, b), r) ==> carry(r, p) == carry(a, carry(b, p))
    &&& forall|p: Seq<real>| #[trigger] carry(Placement::identity(), p) == p
    &&& forall|axis: Vector3, angle: Real, r: Placement, x: real, y: real, z: real|
        #![trigger call_ensures(K::rotation, (k, axis, angle), r), carry(r, point(x, y, z))]
        call_ensures(K::rotation, (k, axis, angle), r) && axis.x.bits == 0x3FF0_0000_0000_0000 && axis.y.bits == 0
            && axis.z.bits == 0 && angle.bits == 0x3FF9_21FB_5444_2D18 ==> carry(r, point(x, y, z)) == point(x, -z, y)
}

/// Whether a shape lies along an axis.
pub open spec fn has_axis(shape: GeometryShape) -> bool {
    shape is Cylinder || shape is Capsule || shape is Cone
}

/// Where the placement of an object in the world takes the point at `x`, `y` and `z` of the shape that a
/// query takes, which lies along y: a shape with an axis is turned so that its own axis is z.
pub open spec fn shape_point(
    carry: spec_fn(Placement, Seq<real>) -> Seq<real>,
    joint: Placement,
    obj: GeometryObject,
    x: real,
    y: real,
    z: real,
) -> Seq<real> {
    carry(
        joint,
        carry(
            obj.placement,
            if has_axis(obj.shape) {
                point(x, -z, y)
            } else {
                point(x, y, z)
            },
        ),
    )
}

/// Every shape with an axis stands in the world with the axis that the query knows, y, along its own
/// axis z, and every shape without one stands as it is: in the frame of the object, which is carried by
/// the joint.
pub proof fn shapes_stand_along_their_axes<K: SpatialMath>(
    k: &K,
    carry: spec_fn(Placement, Seq<real>) -> Seq<real>,
    abs: Seq<Placement>,
    obj: GeometryObject,
    i: int,
    r: CollisionObject,
    x: real,
    y: real,
    z: real,
)
    requires
        carries_points(k, carry),
        placed_object(k, abs, obj, i, r),
    ensures
        carry(r.world_pose, point(x, y, z)) == shape_point(carry, abs[obj.parent_joint as int], obj, x, y, z),
{
    let (f, p) = choose|f: Placement, p: Placement|
        {
            &&& #[trigger] shape_frame(k, obj.shape, f)
            &&& #[trigger] call_ensures(K::compose, (k, abs[obj.parent_joint as int], obj.placement), p)
            &&& call_ensures(K::compose, (k, p, f), r.world_pose)
        };
    let at = point(x, y, z);
    assert(carry(r.world_pose, at) == carry(p, carry(f, at)));
    if has_axis(obj.shape) {
        assert(carry(f, point(x, y, z)) == point(x, -z, y));
    } else {
        assert(carry(f, at) == at);
    }
    assert(carry(p, carry(f, at)) == carry(abs[obj.parent_joint as int], carry(obj.placement, carry(f, at))));
}

/// In a scene, every object whose joint exists and whose mesh, if it is one, has been loaded stands along
/// its axis on its joint, and no other does.
pub proof fn scenes_hold_the_shapes<K: SpatialMath>(
    k: &K,
    carry: spec_fn(Placement, Seq<real>) -> Seq<real>,
    m: Model,
    g: GeometryModel,
    q: Seq<Real>,
    filter: PairFilter,
    s: Scene,
)
    requires
        carries_points(k, carry),
        is_scene(k, m, g, q, filter, s),
    ensures
        exists|d: Data|
            {
                &&& d.fits(m)
                &&& #[trigger] fk::all_placed(k, m, q, d)
                &&& forall|i: int, x: real, y: real, z: real|
                    #![trigger carry(s.objects[i].world_pose, point(x, y, z))]
                    0 <= i < s.objects.len() ==> carry(s.objects[i].world_pose, point(x, y, z)) == shape_point(
                        carry,
                        d.oMi@[s.objects[i].parent_joint as int],
                        g.objects@[s.objects[i].index as int],
                        x,
                        y,
                        z,
                    )
            },
        forall|i: int|
            0 <= i < s.objects.len() ==> (#[trigger] s.objects[i]).parent_joint < m.joints@.len()
                && s.objects[i].index < g.objects@.len() && s.objects[i].parent_joint
                == g.objects@[s.objects[i].index as int].parent_joint,
        forall|o: int|
            0 <= o < g.objects@.len() && (#[trigger] g.objects@[o]).parent_joint < m.joints@.len() && (
            g.objects@[o].shape is Mesh ==> g.objects@[o].mesh_data is Some) ==> exists|i: int|
                0 <= i < s.objects.len() && (#[trigger] s.objects[i]).index == o,
{
    let d = choose|d: Data|
        {
            &&& d.fits(m)
            &&& #[trigger] fk::all_placed(k, m, q, d)
            &&& placed_objects(k, m, g, d.oMi@, s.objects)
        };
    let n = g.objects@.len() as int;
    let p = parts(m, g.objects@, n);
    parts_take_part(m, g.objects@, n);
    assert forall|i: int| 0 <= i < s.objects.len() implies placed_object(
        k,
        d.oMi@,
        g.objects@[p[i]],
        p[i],
        #[trigger] s.objects[i],
    ) && 0 <= p[i] < n && takes_part(m, g.objects@[p[i]]) by {
        assert(p.contains(p[i]));
    }
    assert forall|i: int, x: real, y: real, z: real|
        #![trigger carry(s.objects[i].world_pose, point(x, y, z))]
        0 <= i < s.objects.len() implies carry(s.objects[i].world_pose, point(x, y, z)) == shape_point(
        carry,
        d.oMi@[s.objects[i].parent_joint as int],
        g.objects@[s.objects[i].index as int],
        x,
        y,
        z,
    ) by {
        shapes_stand_along_their_axes(k, carry, d.oMi@, g.objects@[p[i]], p[i], s.objects[i], x, y, z);
    }
    assert forall|o: int|
        0 <= o < g.objects@.len() && (#[trigger] g.objects@[o]).parent_joint < m.joints@.len() && (
        g.objects@[o].shape is Mesh ==> g.objects@[o].mesh_data is Some) implies exists|i: int|
        0 <= i < s.objects.len() && (#[trigger] s.objects[i]).index == o by {
        assert(takes_part(m, g.objects@[o]));
        assert(p.contains(o));
        let i = choose|i: int| 0 <= i < p.len() && p[i] == o;
        assert(s.objects[i].index == o);
    }
}

proof fn parts_take_part(m: Model, g: Seq<GeometryObject>, n: int)
    requires
        0 <= n <= g.len(),
    ensures
        forall|o: int| #[trigger] parts(m, g, n).contains(o) ==> 0 <= o < n && takes_part(m, g[o]),
        forall|o: int| 0 <= o < n && #[trigger] takes_part(m, g[o]) ==> parts(m, g, n).contains(o),
    decreases n,
{
    if n > 0 {
        parts_take_part(m, g, n - 1);
        let before = parts(m, g, n - 1);
        if takes_part(m, g[n - 1]) {
            let after = before.push(n - 1);
            assert(parts(m, g, n) == after);
            assert forall|o: int| #[trigger] after.contains(o) implies 0 <= o < n && takes_part(m, g[o]) by {
                let i = choose|i: int| 0 <= i < after.len() && after[i] == o;
                if i < before.len() {
                    assert(before.contains(before[i]));
                }
            }
            assert forall|o: int| 0 <= o < n && #[trigger] takes_part(m, g[o]) implies after.contains(o) by {
                if o < n - 1 {
                    assert(before.contains(o));
                    let i = choose|i: int| 0 <= i < before.len() && before[i] == o;
                    assert(after[i] == o);
                } else {
                    assert(after[before.len() as int] == o);
                }
            }
        }
    }
}

} // verus!
