//! Approximation of meshes by spheres at the leaves of a binary tree.

use vstd::prelude::*;
use crate::mesh;
use vstd::arithmetic::power2::pow2;
use crate::coriolis::HALF;
use crate::data::repeat;
use crate::decompose::{Progress, Report, Silent, PHASE_DECOMPOSING, PHASE_DONE, PHASE_PREPARING};
use crate::mesh::{MeshData, MeshView};
use crate::number::{Point3, Real, Vector3};
use crate::numerics::{MeshNumerics, TINY_LENGTH};
use crate::spatial::SpatialMath;

verus! {

/// Floating-point operations behind sphere trees.
///
/// Nothing is assumed of the results.
pub trait SphereMath {
    /// The centre of a triangle.
    fn triangle_center(&self, a: Point3, b: Point3, c: Point3) -> Point3;

    /// The covariance of points about their mean, three by three.
    fn covariance(&self, points: &Vec<Point3>, mean: Point3) -> [Real; 9];

    /// The vector of length one with three equal positive coordinates.
    fn diagonal(&self) -> Vector3;

    /// A three by three matrix times a vector.
    fn matrix_times(&self, m: [Real; 9], v: Vector3) -> Vector3;

    /// The scalar product of a direction and a position.
    fn position_along(&self, axis: Vector3, p: Point3) -> Real;

    /// The square of a distance.
    fn distance_squared(&self, a: Point3, b: Point3) -> Real;

    /// The point at a distance from `from` on the way to `to`.
    fn towards(&self, from: Point3, to: Point3, distance: Real) -> Point3;

    /// The share of a budget for `part` of `whole` items, rounded, at least one.
    fn budget_share(&self, budget: usize, part: usize, whole: usize) -> usize;
}

/// Settings of sphere trees.
#[derive(Clone, Copy, PartialEq, Eq, Structural, Debug)]
pub struct SphereTreeParams {
    /// Largest number of leaves.
    pub max_spheres: usize,
    /// Largest depth of the tree.
    pub max_depth: usize,
    /// Number of triangles that is not split any more.
    pub min_triangles: usize,
}

impl Default for SphereTreeParams {
    fn default() -> (r: Self)
        ensures
            r == (SphereTreeParams { max_spheres: 16, max_depth: 5, min_triangles: 4 }),
    {
        SphereTreeParams { max_spheres: 16, max_depth: 5, min_triangles: 4 }
    }
}

/// A sphere.
#[derive(Clone, Copy, PartialEq, Eq, Structural, Debug)]
pub struct FitSphere {
    pub center: Point3,
    pub radius: Real,
}

/// A triangle and its centre.
#[derive(Clone, Copy, Debug)]
pub struct TriInfo {
    pub centroid: Point3,
    pub vi: [u32; 3],
}

// ── Points of triangles ──

/// The list with a number added, unless it is there.
pub open spec fn add_once(s: Seq<u32>, x: u32) -> Seq<u32> {
    if s.contains(x) {
        s
    } else {
        s.push(x)
    }
}

/// The corners of the first `n` triangles, each once, in order of first use.
pub open spec fn corners_of(tris: Seq<TriInfo>, n: int) -> Seq<u32>
    decreases n,
{
    if n <= 0 {
        Seq::empty()
    } else {
        let t = tris[n - 1].vi;
        add_once(add_once(add_once(corners_of(tris, n - 1), t[0]), t[1]), t[2])
    }
}

/// The positions of corners.
pub open spec fn positions(vertices: Seq<Point3>, corners: Seq<u32>) -> Seq<Point3> {
    corners.map_values(|v: u32| vertices[v as int])
}

/// Whether the corners of the triangles are among `n` vertices.
pub open spec fn tris_within(tris: Seq<TriInfo>, n: int) -> bool {
    forall|i: int, c: int| 0 <= i < tris.len() && 0 <= c < 3 ==> (#[trigger] tris[i].vi[c]) < n
}

fn use_corner(
    vertices: &Vec<Point3>,
    v: u32,
    seen: &mut Vec<bool>,
    pts: &mut Vec<Point3>,
    Ghost(corners): Ghost<Seq<u32>>,
)
    requires
        v < vertices@.len(),
        old(seen)@.len() == vertices@.len(),
        forall|x: u32| x < vertices@.len() ==> #[trigger] old(seen)@[x as int] == corners.contains(x),
        old(pts)@ == positions(vertices@, corners),
    ensures
        final(seen)@.len() == vertices@.len(),
        forall|x: u32|
            x < vertices@.len() ==> #[trigger] final(seen)@[x as int] == add_once(corners, v).contains(x),
        final(pts)@ == positions(vertices@, add_once(corners, v)),
{
    let i: usize = v as usize;
    assert(seen@[v as int] == corners.contains(v));
    if !seen[i] {
        let ghost before = seen@;
        seen.set(i, true);
        pts.push(vertices[i]);
        assert(pts@ =~= positions(vertices@, corners.push(v)));
        assert forall|x: u32| x < vertices@.len() implies #[trigger] seen@[x as int] == corners.push(
            v,
        ).contains(x) by {
            if x == v {
                assert(corners.push(v)[corners.len() as int] == v);
            } else {
                assert(seen@[x as int] == before[x as int]);
                if corners.contains(x) {
                    let j = choose|j: int| 0 <= j < corners.len() && corners[j] == x;
                    assert(corners.push(v)[j] == x);
                }
                if corners.push(v).contains(x) {
                    let j = choose|j: int| 0 <= j < corners.push(v).len() && corners.push(v)[j] == x;
                    assert(corners[j] == x);
                }
            }
        }
    }
}

/// The positions of the corners of triangles, each once.
fn gather_points(vertices: &Vec<Point3>, tris: &Vec<TriInfo>) -> (pts: Vec<Point3>)
    requires
        tris_within(tris@, vertices@.len() as int),
    ensures
        pts@ == positions(vertices@, corners_of(tris@, tris@.len() as int)),
{
    let mut seen: Vec<bool> = repeat(false, vertices.len());
    let mut pts: Vec<Point3> = Vec::new();
    assert(pts@ =~= positions(vertices@, Seq::empty()));
    for i in 0..tris.len()
        invariant
            tris_within(tris@, vertices@.len() as int),
            seen@.len() == vertices@.len(),
            forall|x: u32|
                x < vertices@.len() ==> #[trigger] seen@[x as int] == corners_of(tris@, i as int).contains(
                    x,
                ),
            pts@ == positions(vertices@, corners_of(tris@, i as int)),
    {
        let t = tris[i].vi;
        assert(tris@[i as int].vi[0] < vertices@.len() && tris@[i as int].vi[1] < vertices@.len()
            && tris@[i as int].vi[2] < vertices@.len());
        let ghost a = corners_of(tris@, i as int);
        use_corner(vertices, t[0], &mut seen, &mut pts, Ghost(a));
        use_corner(vertices, t[1], &mut seen, &mut pts, Ghost(add_once(a, t[0])));
        use_corner(vertices, t[2], &mut seen, &mut pts, Ghost(add_once(add_once(a, t[0]), t[1])));
    }
    pts
}

// ── Bounding spheres ──

/// A coordinate of a point.
pub open spec fn coordinate(p: Point3, axis: int) -> Real {
    if axis == 0 {
        p.x
    } else if axis == 1 {
        p.y
    } else {
        p.z
    }
}

fn get_coordinate(p: Point3, axis: usize) -> (r: Real)
    ensures
        r == coordinate(p, axis as int),
{
    if axis == 0 {
        p.x
    } else if axis == 1 {
        p.y
    } else {
        p.z
    }
}

/// The first of the first `n` points with the least coordinate.
pub open spec fn least(points: Seq<Point3>, axis: int, n: int) -> Point3
    decreases n,
{
    if n <= 1 {
        points[0]
    } else {
        let b = least(points, axis, n - 1);
        if coordinate(points[n - 1], axis).below(coordinate(b, axis)) {
            points[n - 1]
        } else {
            b
        }
    }
}

/// The first of the first `n` points with the greatest coordinate.
pub open spec fn greatest(points: Seq<Point3>, axis: int, n: int) -> Point3
    decreases n,
{
    if n <= 1 {
        points[0]
    } else {
        let b = greatest(points, axis, n - 1);
        if coordinate(b, axis).below(coordinate(points[n - 1], axis)) {
            points[n - 1]
        } else {
            b
        }
    }
}

/// The axis with the largest of the first `n` spans, the first one if there are several; none if
/// all vanish.
pub open spec fn widest(spans: Seq<Real>, n: int) -> Option<int>
    decreases n,
{
    if n <= 0 {
        None
    } else {
        let before = widest(spans, n - 1);
        if largest_span(spans, before).below(spans[n - 1]) {
            Some(n - 1)
        } else {
            before
        }
    }
}

/// The span of an axis, or zero.
pub open spec fn largest_span(spans: Seq<Real>, axis: Option<int>) -> Real {
    match axis {
        Some(a) => spans[a],
        None => Real { bits: 0 },
    }
}

/// Whether `spans` are the squared distances between the points that are farthest apart along each
/// axis.
pub open spec fn are_spans<K: SphereMath>(k: &K, points: Seq<Point3>, spans: Seq<Real>) -> bool {
    &&& spans.len() == 3
    &&& forall|a: int|
        0 <= a < 3 ==> call_ensures(
            K::distance_squared,
            (
                k,
                greatest(points, a, points.len() as int),
                least(points, a, points.len() as int),
            ),
            #[trigger] spans[a],
        )
}

/// The two points that are farthest apart along an axis, or the first point twice.
pub open spec fn ends(points: Seq<Point3>, axis: Option<int>) -> (Point3, Point3) {
    match axis {
        Some(a) => (least(points, a, points.len() as int), greatest(points, a, points.len() as int)),
        None => (points[0], points[0]),
    }
}

/// Whether `s` is the sphere over the two points that are farthest apart.
pub open spec fn first_sphere<K: MeshNumerics + SphereMath>(k: &K, points: Seq<Point3>, s: FitSphere) -> bool {
    exists|spans: Seq<Real>|
        {
            &&& #[trigger] are_spans(k, points, spans)
            &&& call_ensures(
                K::midpoint,
                (k, ends(points, widest(spans, 3)).0, ends(points, widest(spans, 3)).1),
                s.center,
            )
            &&& call_ensures(
                K::distance,
                (k, ends(points, widest(spans, 3)).1, s.center),
                s.radius,
            )
        }
}

/// Whether `t` is the sphere `s`, grown as far as it takes to reach the point.
pub open spec fn grown<K: SpatialMath + MeshNumerics + SphereMath>(
    k: &K,
    p: Point3,
    s: FitSphere,
    t: FitSphere,
) -> bool {
    exists|d: Real|
        {
            &&& #[trigger] call_ensures(K::distance, (k, p, s.center), d)
            &&& if s.radius.below(d) {
                exists|sum: Real, shift: Real|
                    {
                        &&& #[trigger] call_ensures(K::sum, (k, s.radius, d), sum)
                        &&& call_ensures(K::product, (k, sum, Real { bits: HALF }), t.radius)
                        &&& #[trigger] call_ensures(K::difference, (k, d, t.radius), shift)
                        &&& call_ensures(K::towards, (k, s.center, p, shift), t.center)
                    }
            } else {
                t == s
            }
        }
}

/// Whether `history` leads from a sphere over all points, each of which makes it grow.
pub open spec fn growth<K: SpatialMath + MeshNumerics + SphereMath>(
    k: &K,
    points: Seq<Point3>,
    n: int,
    history: Seq<FitSphere>,
) -> bool {
    &&& history.len() == n + 1
    &&& first_sphere(k, points, history[0])
    &&& forall|i: int| 0 <= i < n ==> #[trigger] grown(k, points[i], history[i], history[i + 1])
}

/// Whether `s` is the sphere around points.
pub open spec fn is_bounding<K: SpatialMath + MeshNumerics + SphereMath>(
    k: &K,
    points: Seq<Point3>,
    s: FitSphere,
) -> bool {
    if points.len() == 0 {
        s == (FitSphere { center: Point3::origin(), radius: Real::zero() })
    } else if points.len() == 1 {
        s == (FitSphere { center: points[0], radius: Real::zero() })
    } else {
        exists|history: Seq<FitSphere>| #[trigger]
            growth(k, points, points.len() as int, history) && s == history.last()
    }
}

fn extremes(points: &Vec<Point3>, axis: usize) -> (r: (Point3, Point3))
    requires
        points@.len() > 0,
    ensures
        r.0 == least(points@, axis as int, points@.len() as int),
        r.1 == greatest(points@, axis as int, points@.len() as int),
{
    let mut lo = points[0];
    let mut hi = points[0];
    for i in 1..points.len()
        invariant
            points@.len() > 0,
            lo == least(points@, axis as int, i as int),
            hi == greatest(points@, axis as int, i as int),
    {
        let p = points[i];
        if get_coordinate(p, axis).lt(get_coordinate(lo, axis)) {
            lo = p;
        }
        if get_coordinate(hi, axis).lt(get_coordinate(p, axis)) {
            hi = p;
        }
    }
    (lo, hi)
}

fn compute_first_sphere<K: MeshNumerics + SphereMath>(k: &K, points: &Vec<Point3>) -> (s: FitSphere)
    requires
        points@.len() > 0,
    ensures
        first_sphere(k, points@, s),
{
    let mut best = Real { bits: 0 };
    let mut lo = points[0];
    let mut hi = points[0];
    let ghost mut spans: Seq<Real> = Seq::empty();
    for axis in 0..3usize
        invariant
            points@.len() > 0,
            spans.len() == axis,
            forall|a: int|
                0 <= a < axis ==> call_ensures(
                    K::distance_squared,
                    (
                        k,
                        greatest(points@, a, points@.len() as int),
                        least(points@, a, points@.len() as int),
                    ),
                    #[trigger] spans[a],
                ),
            best == largest_span(spans, widest(spans, axis as int)),
            (lo, hi) == ends(points@, widest(spans, axis as int)),
            widest(spans, axis as int) matches Some(a) ==> 0 <= a < axis,
    {
        let (a, b) = extremes(points, axis);
        let d = k.distance_squared(b, a);
        let ghost before = spans;
        proof {
            spans = spans.push(d);
            widest_frame(before, spans, axis as int);
        }
        if best.lt(d) {
            best = d;
            lo = a;
            hi = b;
        }
    }
    assert(are_spans(k, points@, spans));
    let center = k.midpoint(lo, hi);
    let radius = k.distance(hi, center);
    FitSphere { center, radius }
}

proof fn widest_frame(a: Seq<Real>, b: Seq<Real>, n: int)
    requires
        0 <= n <= a.len(),
        n <= b.len(),
        forall|i: int| 0 <= i < n ==> a[i] == b[i],
    ensures
        widest(a, n) == widest(b, n),
        widest(a, n) matches Some(x) ==> 0 <= x < n,
    decreases n,
{
    if n > 0 {
        widest_frame(a, b, n - 1);
    }
}

fn grow<K: SpatialMath + MeshNumerics + SphereMath>(k: &K, p: Point3, s: FitSphere) -> (t: FitSphere)
    ensures
        grown(k, p, s, t),
{
    let d = k.distance(p, s.center);
    assert(call_ensures(K::distance, (k, p, s.center), d));
    if s.radius.lt(d) {
        let sum = k.sum(s.radius, d);
        let radius = k.product(sum, Real { bits: HALF });
        let shift = k.difference(d, radius);
        let center = k.towards(s.center, p, shift);
        let t = FitSphere { center, radius };
        assert(call_ensures(K::sum, (k, s.radius, d), sum));
        assert(call_ensures(K::difference, (k, d, t.radius), shift));
        t
    } else {
        s
    }
}

pub fn bounding_sphere<K: SpatialMath + MeshNumerics + SphereMath>(k: &K, points: &Vec<Point3>) -> (s: FitSphere)
    ensures
        is_bounding(k, points@, s),
{
    if points.len() == 0 {
        return FitSphere { center: Point3::origin(), radius: Real::zero() };
    }
    if points.len() == 1 {
        return FitSphere { center: points[0], radius: Real::zero() };
    }
    let mut s = compute_first_sphere(k, points);
    let ghost mut history: Seq<FitSphere> = seq![s];
    for i in 0..points.len()
        invariant
            growth(k, points@, i as int, history),
            s == history[i as int],
    {
        let ghost before = history;
        let t = grow(k, points[i], s);
        proof {
            history = history.push(t);
            assert forall|j: int| 0 <= j < i + 1 implies #[trigger] grown(
                k,
                points@[j],
                history[j],
                history[j + 1],
            ) by {
                if j < i {
                    assert(grown(k, points@[j], before[j], before[j + 1]));
                }
            }
        }
        s = t;
    }
    assert(growth(k, points@, points@.len() as int, history));
    s
}

// ── Splitting ──

/// Whether `v` is the direction after `n` rounds of multiplying and normalising; none if a product
/// vanished.
pub open spec fn power_rounds<K: MeshNumerics + SphereMath>(
    k: &K,
    m: [Real; 9],
    n: int,
    v: Option<Vector3>,
) -> bool
    decreases n,
{
    if n <= 0 {
        v matches Some(v) && call_ensures(K::diagonal, (k,), v)
    } else {
        exists|u: Option<Vector3>| power_rounds(k, m, n - 1, u) && #[trigger] power_round(k, m, u, v)
    }
}

/// Whether a round of multiplying and normalising leads from `u` to `v`.
pub open spec fn power_round<K: MeshNumerics + SphereMath>(
    k: &K,
    m: [Real; 9],
    u: Option<Vector3>,
    v: Option<Vector3>,
) -> bool {
    match u {
        Some(u) => exists|next: Vector3, len: Real|
            {
                &&& #[trigger] call_ensures(K::matrix_times, (k, m, u), next)
                &&& #[trigger] call_ensures(K::norm, (k, next), len)
                &&& if len.below(Real { bits: TINY_LENGTH }) {
                    v is None
                } else {
                    v matches Some(v) && call_ensures(K::divided, (k, next, len), v)
                }
            },
        None => v is None,
    }
}

/// The direction of the first coordinate.
pub open spec fn x_axis() -> Vector3 {
    Vector3 { x: Real { bits: crate::number::ONE }, y: Real { bits: 0 }, z: Real { bits: 0 } }
}

/// The centres of triangles.
pub open spec fn centroids(tris: Seq<TriInfo>) -> Seq<Point3> {
    tris.map_values(|t: TriInfo| t.centroid)
}

fn list_centroids(tris: &Vec<TriInfo>) -> (r: Vec<Point3>)
    ensures
        r@ == centroids(tris@),
{
    let mut r: Vec<Point3> = Vec::new();
    for i in 0..tris.len()
        invariant
            r@ == centroids(tris@).take(i as int),
    {
        r.push(tris[i].centroid);
        assert(r@ =~= centroids(tris@).take(i + 1));
    }
    assert(r@ =~= centroids(tris@));
    r
}

/// Whether `v` is the direction in which points spread most.
pub open spec fn is_major_axis<K: MeshNumerics + SphereMath>(k: &K, points: Seq<Point3>, v: Vector3) -> bool {
    if points.len() < 2 {
        v == x_axis()
    } else {
        exists|list: Vec<Point3>, mean: Point3, m: [Real; 9], u: Option<Vector3>|
            {
                &&& list@ == points
                &&& #[trigger] call_ensures(K::mean, (k, &list), mean)
                &&& #[trigger] call_ensures(K::covariance, (k, &list, mean), m)
                &&& #[trigger] power_rounds(k, m, 30, u)
                &&& v == match u {
                    Some(u) => u,
                    None => x_axis(),
                }
            }
    }
}

fn iterate_power<K: MeshNumerics + SphereMath>(k: &K, m: [Real; 9]) -> (v: Option<Vector3>)
    ensures
        power_rounds(k, m, 30, v),
{
    let mut v: Option<Vector3> = Some(k.diagonal());
    for i in 0..30usize
        invariant
            power_rounds(k, m, i as int, v),
    {
        let ghost u = v;
        match v {
            Some(x) => {
                let next = k.matrix_times(m, x);
                let len = k.norm(next);
                if len.lt(Real { bits: TINY_LENGTH }) {
                    v = None;
                } else {
                    v = Some(k.divided(next, len));
                }
                assert(call_ensures(K::matrix_times, (k, m, x), next));
                assert(power_round(k, m, u, v));
            },
            None => {},
        }
        assert(power_rounds(k, m, i as int, u) && power_round(k, m, u, v));
    }
    v
}

fn pca_major_axis<K: MeshNumerics + SphereMath>(k: &K, points: &Vec<Point3>) -> (v: Vector3)
    ensures
        is_major_axis(k, points@, v),
{
    let x = Vector3 {
        x: Real { bits: crate::number::ONE },
        y: Real { bits: 0 },
        z: Real { bits: 0 },
    };
    if points.len() < 2 {
        return x;
    }
    let mean = k.mean(points);
    let m = k.covariance(points, mean);
    let u = iterate_power(k, m);
    assert(call_ensures(K::mean, (k, points), mean));
    assert(call_ensures(K::covariance, (k, points, mean), m));
    assert(power_rounds(k, m, 30, u));
    match u {
        Some(u) => u,
        None => x,
    }
}

/// Whether the triangles lie along an axis as told, and `d` is the place of the mean of their
/// centres.
pub open spec fn is_cut<K: MeshNumerics + SphereMath>(
    k: &K,
    tris: Seq<TriInfo>,
    places: Seq<Real>,
    d: Real,
) -> bool {
    exists|list: Vec<Point3>, axis: Vector3, mean: Point3|
        {
            &&& list@ == centroids(tris)
            &&& #[trigger] is_major_axis(k, centroids(tris), axis)
            &&& #[trigger] call_ensures(K::mean, (k, &list), mean)
            &&& call_ensures(K::position_along, (k, axis, mean), d)
            &&& places.len() == tris.len()
            &&& forall|i: int|
                0 <= i < tris.len() ==> call_ensures(
                    K::position_along,
                    (k, axis, tris[i].centroid),
                    #[trigger] places[i],
                )
        }
}

/// Those of the first `n` triangles that lie on a side of a place.
pub open spec fn side_of(tris: Seq<TriInfo>, places: Seq<Real>, d: Real, before: bool, n: int) -> Seq<TriInfo>
    decreases n,
{
    if n <= 0 {
        Seq::empty()
    } else if places[n - 1].below(d) == before {
        side_of(tris, places, d, before, n - 1).push(tris[n - 1])
    } else {
        side_of(tris, places, d, before, n - 1)
    }
}

/// Every triangle lies on one side of a cut, and on no other.
pub proof fn cutting_keeps_triangles(tris: Seq<TriInfo>, places: Seq<Real>, d: Real, n: int)
    requires
        0 <= n,
    ensures
        side_of(tris, places, d, true, n).len() + side_of(tris, places, d, false, n).len() == n,
    decreases n,
{
    if n > 0 {
        cutting_keeps_triangles(tris, places, d, n - 1);
    }
}

proof fn side_is_within(tris: Seq<TriInfo>, places: Seq<Real>, d: Real, before: bool, n: int, v: int)
    requires
        0 <= n <= tris.len(),
        tris_within(tris, v),
    ensures
        tris_within(side_of(tris, places, d, before, n), v),
    decreases n,
{
    if n > 0 {
        side_is_within(tris, places, d, before, n - 1, v);
        let s = side_of(tris, places, d, before, n);
        assert forall|i: int, c: int| 0 <= i < s.len() && 0 <= c < 3 implies (#[trigger] s[i].vi[c]) < v by {
            let r = side_of(tris, places, d, before, n - 1);
            if i < r.len() {
                assert(r[i].vi[c] < v);
            } else {
                assert(tris[n - 1].vi[c] < v);
            }
        }
    }
}

/// Places the triangles along the axis in which they spread most, and cuts them at the mean.
fn cut<K: MeshNumerics + SphereMath>(k: &K, tris: &Vec<TriInfo>) -> (r: (
    Vec<TriInfo>,
    Vec<TriInfo>,
    Ghost<(Seq<Real>, Real)>,
))
    ensures
        is_cut(k, tris@, r.2@.0, r.2@.1),
        r.0@ == side_of(tris@, r.2@.0, r.2@.1, true, tris@.len() as int),
        r.1@ == side_of(tris@, r.2@.0, r.2@.1, false, tris@.len() as int),
{
    let list = list_centroids(tris);
    let axis = pca_major_axis(k, &list);
    let mean = k.mean(&list);
    let d = k.position_along(axis, mean);
    let mut left: Vec<TriInfo> = Vec::new();
    let mut right: Vec<TriInfo> = Vec::new();
    let ghost mut places: Seq<Real> = Seq::empty();
    for i in 0..tris.len()
        invariant
            places.len() == i,
            forall|j: int|
                0 <= j < i ==> call_ensures(
                    K::position_along,
                    (k, axis, tris@[j].centroid),
                    #[trigger] places[j],
                ),
            left@ == side_of(tris@, places, d, true, i as int),
            right@ == side_of(tris@, places, d, false, i as int),
    {
        let t = tris[i];
        let place = k.position_along(axis, t.centroid);
        let ghost before = places;
        proof {
            places = places.push(place);
            side_frame(tris@, before, places, d, true, i as int);
            side_frame(tris@, before, places, d, false, i as int);
        }
        if place.lt(d) {
            left.push(t);
        } else {
            right.push(t);
        }
    }
    assert(is_major_axis(k, centroids(tris@), axis));
    assert(call_ensures(K::mean, (k, &list), mean));
    assert(is_cut(k, tris@, places, d));
    (left, right, Ghost((places, d)))
}

proof fn side_frame(tris: Seq<TriInfo>, a: Seq<Real>, b: Seq<Real>, d: Real, before: bool, n: int)
    requires
        forall|i: int| 0 <= i < n ==> a[i] == b[i],
    ensures
        side_of(tris, a, d, before, n) == side_of(tris, b, d, before, n),
    decreases n,
{
    if n > 0 {
        side_frame(tris, a, b, d, before, n - 1);
    }
}

// ── The tree ──

/// A tree of spheres, with what decides its shape.
pub enum SphereTree {
    /// No triangles.
    Empty,
    /// A sphere; if its triangles were cut, with all on one side, the cut.
    Leaf { sphere: FitSphere, places: Seq<Real>, d: Real },
    /// A cut, the budget of the first part, and both parts.
    Node { places: Seq<Real>, d: Real, share: usize, left: Box<SphereTree>, right: Box<SphereTree> },
}

/// The spheres at the leaves, from the first to the last.
pub open spec fn leaves_of(t: SphereTree) -> Seq<FitSphere>
    decreases t,
{
    match t {
        SphereTree::Empty => Seq::empty(),
        SphereTree::Leaf { sphere, places, d } => seq![sphere],
        SphereTree::Node { places, d, share, left, right } => leaves_of(*left) + leaves_of(*right),
    }
}

/// Whether triangles are not split any more.
pub open spec fn stops(p: SphereTreeParams, depth: int, count: int, budget: int) -> bool {
    depth >= p.max_depth || count <= p.min_triangles || budget <= 1
}

/// The part of a budget for the first of two parts: its share, so that both parts get at least one.
pub open spec fn first_of(budget: usize, share: usize) -> usize {
    if share < 1 {
        1
    } else if budget <= share {
        (budget - 1) as usize
    } else {
        share
    }
}

/// What is left of a budget for the second of two parts.
pub open spec fn rest_of(budget: usize, share: usize) -> usize {
    (budget - first_of(budget, share)) as usize
}

/// Whether a tree is that of triangles at a depth, with a budget of leaves.
pub open spec fn is_tree<K: SpatialMath + MeshNumerics + SphereMath>(
    k: &K,
    vertices: Seq<Point3>,
    p: SphereTreeParams,
    tris: Seq<TriInfo>,
    depth: int,
    budget: usize,
    t: SphereTree,
) -> bool
    decreases t,
{
    let n = tris.len() as int;
    match t {
        SphereTree::Empty => n == 0,
        SphereTree::Leaf { sphere, places, d } => {
            &&& n > 0
            &&& is_bounding(k, positions(vertices, corners_of(tris, n)), sphere)
            &&& stops(p, depth, n, budget as int) || (is_cut(k, tris, places, d) && (side_of(
                tris,
                places,
                d,
                true,
                n,
            ).len() == 0 || side_of(tris, places, d, false, n).len() == 0))
        },
        SphereTree::Node { places, d, share, left, right } => {
            let a = side_of(tris, places, d, true, n);
            let b = side_of(tris, places, d, false, n);
            &&& n > 0
            &&& !stops(p, depth, n, budget as int)
            &&& is_cut(k, tris, places, d)
            &&& a.len() > 0
            &&& b.len() > 0
            &&& call_ensures(K::budget_share, (k, budget, a.len() as usize, n as usize), share)
            &&& is_tree(k, vertices, p, a, depth + 1, first_of(budget, share), *left)
            &&& is_tree(k, vertices, p, b, depth + 1, rest_of(budget, share), *right)
        },
    }
}

/// Adds the spheres of triangles.
fn sphere_tree_recurse<K: SpatialMath + MeshNumerics + SphereMath>(
    k: &K,
    vertices: &Vec<Point3>,
    params: &SphereTreeParams,
    tris: &Vec<TriInfo>,
    depth: usize,
    budget: usize,
    leaves: &mut Vec<FitSphere>,
) -> (t: Ghost<SphereTree>)
    requires
        tris_within(tris@, vertices@.len() as int),
        depth <= params.max_depth,
    ensures
        is_tree(k, vertices@, *params, tris@, depth as int, budget, t@),
        final(leaves)@ == old(leaves)@ + leaves_of(t@),
    decreases params.max_depth - depth,
{
    let ghost start = leaves@;
    let n: usize = tris.len();
    if n == 0 {
        let ghost t = SphereTree::Empty;
        assert(leaves@ =~= start + leaves_of(t));
        return Ghost(t);
    }
    let pts = gather_points(vertices, tris);
    let sphere = bounding_sphere(k, &pts);
    if depth >= params.max_depth || n <= params.min_triangles || budget <= 1 {
        leaves.push(sphere);
        let ghost t = SphereTree::Leaf { sphere, places: Seq::empty(), d: Real { bits: 0 } };
        assert(leaves@ =~= start + leaves_of(t));
        return Ghost(t);
    }
    let (left, right, at) = cut(k, tris);
    proof {
        cutting_keeps_triangles(tris@, at@.0, at@.1, n as int);
        side_is_within(tris@, at@.0, at@.1, true, n as int, vertices@.len() as int);
        side_is_within(tris@, at@.0, at@.1, false, n as int, vertices@.len() as int);
    }
    if left.len() == 0 || right.len() == 0 {
        leaves.push(sphere);
        let ghost t = SphereTree::Leaf { sphere, places: at@.0, d: at@.1 };
        assert(leaves@ =~= start + leaves_of(t));
        return Ghost(t);
    }
    let share: usize = k.budget_share(budget, left.len(), n);
    let first: usize = if share < 1 {
        1
    } else if budget <= share {
        budget - 1
    } else {
        share
    };
    let rest: usize = budget - first;
    let a = sphere_tree_recurse(k, vertices, params, &left, depth + 1, first, leaves);
    let ghost middle = leaves@;
    let b = sphere_tree_recurse(k, vertices, params, &right, depth + 1, rest, leaves);
    let ghost t = SphereTree::Node {
        places: at@.0,
        d: at@.1,
        share,
        left: Box::new(a@),
        right: Box::new(b@),
    };
    proof {
        assert(leaves_of(t) == leaves_of(a@) + leaves_of(b@));
        assert(leaves@ =~= start + leaves_of(t));
        assert(is_tree(k, vertices@, *params, tris@, depth as int, budget, t));
    }
    Ghost(t)
}

/// Whether `tris` are the triangles of a mesh with their centres.
pub open spec fn are_tris<K: SphereMath>(k: &K, m: MeshView, tris: Seq<TriInfo>) -> bool {
    &&& tris.len() == m.indices.len()
    &&& forall|i: int|
        0 <= i < tris.len() ==> (#[trigger] tris[i]).vi == m.indices[i] && call_ensures(
            K::triangle_center,
            (
                k,
                m.vertices[m.indices[i][0] as int],
                m.vertices[m.indices[i][1] as int],
                m.vertices[m.indices[i][2] as int],
            ),
            tris[i].centroid,
        )
}

fn list_tris<K: SphereMath>(k: &K, mesh: &MeshData) -> (tris: Vec<TriInfo>)
    requires
        mesh::corners_within(mesh.indices@, mesh.vertices@.len()),
    ensures
        are_tris(k, mesh@, tris@),
        tris_within(tris@, mesh.vertices@.len() as int),
{
    let mut tris: Vec<TriInfo> = Vec::new();
    for i in 0..mesh.indices.len()
        invariant
            mesh::corners_within(mesh.indices@, mesh.vertices@.len()),
            tris@.len() == i,
            forall|j: int|
                0 <= j < i ==> (#[trigger] tris@[j]).vi == mesh.indices@[j] && call_ensures(
                    K::triangle_center,
                    (
                        k,
                        mesh.vertices@[mesh.indices@[j][0] as int],
                        mesh.vertices@[mesh.indices@[j][1] as int],
                        mesh.vertices@[mesh.indices@[j][2] as int],
                    ),
                    tris@[j].centroid,
                ),
    {
        let t = mesh.indices[i];
        assert(mesh.indices@[i as int][0] < mesh.vertices@.len() && mesh.indices@[i as int][1]
            < mesh.vertices@.len() && mesh.indices@[i as int][2] < mesh.vertices@.len());
        let centroid = k.triangle_center(
            mesh.vertices[t[0] as usize],
            mesh.vertices[t[1] as usize],
            mesh.vertices[t[2] as usize],
        );
        tris.push(TriInfo { centroid, vi: t });
    }
    assert forall|i: int, c: int| 0 <= i < tris@.len() && 0 <= c < 3 implies (#[trigger] tris@[i].vi[c])
        < mesh.vertices@.len() by {
        assert(tris@[i].vi == mesh.indices@[i]);
        assert(mesh.indices@[i][c] < mesh.vertices@.len());
    }
    tris
}

/// Whether `r` are the spheres at the leaves of the tree of a mesh.
pub open spec fn are_spheres<K: SpatialMath + MeshNumerics + SphereMath>(
    k: &K,
    m: MeshView,
    p: SphereTreeParams,
    r: Seq<FitSphere>,
) -> bool {
    if m.vertices.len() == 0 || m.indices.len() == 0 {
        r.len() == 0
    } else {
        exists|tris: Seq<TriInfo>, t: SphereTree|
            {
                &&& #[trigger] are_tris(k, m, tris)
                &&& #[trigger] is_tree(k, m.vertices, p, tris, 0, p.max_spheres, t)
                &&& r == leaves_of(t)
            }
    }
}

/// What is told about the making of a tree.
pub open spec fn tree_reports(m: MeshView) -> Seq<Report> {
    if m.vertices.len() == 0 || m.indices.len() == 0 {
        seq![Report::Phase(PHASE_PREPARING), Report::Phase(PHASE_DONE)]
    } else {
        seq![
            Report::Phase(PHASE_PREPARING),
            Report::Phase(PHASE_DECOMPOSING),
            Report::Phase(PHASE_DONE),
        ]
    }
}

/// Approximates a mesh by spheres, and tells about progress.
pub fn sphere_tree_with_progress<K: SpatialMath + MeshNumerics + SphereMath, P: Progress>(
    k: &K,
    mesh: &MeshData,
    params: &SphereTreeParams,
    progress: &mut P,
) -> (r: Vec<FitSphere>)
    requires
        mesh::corners_within(mesh.indices@, mesh.vertices@.len()),
    ensures
        are_spheres(k, mesh@, *params, r@),
        final(progress).told() == old(progress).told() + tree_reports(mesh@),
{
    let ghost start = progress.told();
    progress.tell(Report::Phase(PHASE_PREPARING));
    let mut leaves: Vec<FitSphere> = Vec::new();
    if mesh.vertices.len() == 0 || mesh.indices.len() == 0 {
        progress.tell(Report::Phase(PHASE_DONE));
        assert(progress.told() =~= start + tree_reports(mesh@));
        return leaves;
    }
    let tris = list_tris(k, mesh);
    progress.tell(Report::Phase(PHASE_DECOMPOSING));
    let t = sphere_tree_recurse(
        k,
        &mesh.vertices,
        params,
        &tris,
        0,
        params.max_spheres,
        &mut leaves,
    );
    progress.tell(Report::Phase(PHASE_DONE));
    proof {
        assert(progress.told() =~= start + tree_reports(mesh@));
        assert(are_tris(k, mesh@, tris@));
        assert(is_tree(k, mesh@.vertices, *params, tris@, 0, params.max_spheres, t@));
        assert(leaves@ =~= leaves_of(t@));
    }
    leaves
}

/// Approximates a mesh by spheres.
pub fn sphere_tree<K: SpatialMath + MeshNumerics + SphereMath>(k: &K, mesh: &MeshData, params: &SphereTreeParams) -> (r:
    Vec<FitSphere>)
    requires
        mesh::corners_within(mesh.indices@, mesh.vertices@.len()),
    ensures
        are_spheres(k, mesh@, *params, r@),
{
    let mut nobody = Silent::new();
    sphere_tree_with_progress(k, mesh, params, &mut nobody)
}

/// A tree has at most as many leaves as its depth allows.
pub proof fn depth_bounds_leaves<K: SpatialMath + MeshNumerics + SphereMath>(
    k: &K,
    vertices: Seq<Point3>,
    p: SphereTreeParams,
    tris: Seq<TriInfo>,
    depth: int,
    budget: usize,
    t: SphereTree,
)
    requires
        0 <= depth <= p.max_depth,
        is_tree(k, vertices, p, tris, depth, budget, t),
    ensures
        leaves_of(t).len() <= pow2((p.max_depth - depth) as nat),
    decreases t,
{
    vstd::arithmetic::power2::lemma_pow2_pos((p.max_depth - depth) as nat);
    match t {
        SphereTree::Node { places, d, share, left, right } => {
            let n = tris.len() as int;
            depth_bounds_leaves(
                k,
                vertices,
                p,
                side_of(tris, places, d, true, n),
                depth + 1,
                first_of(budget, share),
                *left,
            );
            depth_bounds_leaves(
                k,
                vertices,
                p,
                side_of(tris, places, d, false, n),
                depth + 1,
                rest_of(budget, share),
                *right,
            );
            vstd::arithmetic::power2::lemma_pow2_unfold((p.max_depth - depth) as nat);
        },
        _ => {},
    }
}

/// A tree has at most as many leaves as its budget, or one.
pub proof fn budget_bounds_leaves<K: SpatialMath + MeshNumerics + SphereMath>(
    k: &K,
    vertices: Seq<Point3>,
    p: SphereTreeParams,
    tris: Seq<TriInfo>,
    depth: int,
    budget: usize,
    t: SphereTree,
)
    requires
        is_tree(k, vertices, p, tris, depth, budget, t),
    ensures
        leaves_of(t).len() <= 1 || leaves_of(t).len() <= budget,
    decreases t,
{
    if let SphereTree::Node { places, d, share, left, right } = t {
        let n = tris.len() as int;
        budget_bounds_leaves(
            k,
            vertices,
            p,
            side_of(tris, places, d, true, n),
            depth + 1,
            first_of(budget, share),
            *left,
        );
        budget_bounds_leaves(
            k,
            vertices,
            p,
            side_of(tris, places, d, false, n),
            depth + 1,
            rest_of(budget, share),
            *right,
        );
    }
}

/// A tree has at most as many leaves as triangles.
pub proof fn triangles_bound_leaves<K: SpatialMath + MeshNumerics + SphereMath>(
    k: &K,
    vertices: Seq<Point3>,
    p: SphereTreeParams,
    tris: Seq<TriInfo>,
    depth: int,
    budget: usize,
    t: SphereTree,
)
    requires
        is_tree(k, vertices, p, tris, depth, budget, t),
    ensures
        leaves_of(t).len() <= tris.len(),
    decreases t,
{
    if let SphereTree::Node { places, d, share, left, right } = t {
        let n = tris.len() as int;
        triangles_bound_leaves(
            k,
            vertices,
            p,
            side_of(tris, places, d, true, n),
            depth + 1,
            first_of(budget, share),
            *left,
        );
        triangles_bound_leaves(
            k,
            vertices,
            p,
            side_of(tris, places, d, false, n),
            depth + 1,
            rest_of(budget, share),
            *right,
        );
        cutting_keeps_triangles(tris, places, d, n);
    }
}

/// A mesh is approximated by no more spheres than the settings allow, if they allow any, by no
/// more than the depth allows, and by no more than it has triangles.
pub proof fn spheres_are_limited<K: SpatialMath + MeshNumerics + SphereMath>(
    k: &K,
    m: MeshView,
    p: SphereTreeParams,
    r: Seq<FitSphere>,
)
    requires
        are_spheres(k, m, p, r),
    ensures
        p.max_spheres > 0 ==> r.len() <= p.max_spheres,
        r.len() <= pow2(p.max_depth as nat),
        r.len() <= m.indices.len(),
        m.vertices.len() > 0 && m.indices.len() > 0 ==> r.len() > 0,
{
    if m.vertices.len() > 0 && m.indices.len() > 0 {
        let (tris, t) = choose|tris: Seq<TriInfo>, t: SphereTree|
            {
                &&& #[trigger] are_tris(k, m, tris)
                &&& #[trigger] is_tree(k, m.vertices, p, tris, 0, p.max_spheres, t)
                &&& r == leaves_of(t)
            };
        budget_bounds_leaves(k, m.vertices, p, tris, 0, p.max_spheres, t);
        depth_bounds_leaves(k, m.vertices, p, tris, 0, p.max_spheres, t);
        triangles_bound_leaves(k, m.vertices, p, tris, 0, p.max_spheres, t);
        triangles_have_spheres(k, m.vertices, p, tris, 0, p.max_spheres, t);
    }
}

/// A mesh with triangles is approximated by at least one sphere.
pub proof fn triangles_have_spheres<K: SpatialMath + MeshNumerics + SphereMath>(
    k: &K,
    vertices: Seq<Point3>,
    p: SphereTreeParams,
    tris: Seq<TriInfo>,
    depth: int,
    budget: usize,
    t: SphereTree,
)
    requires
        tris.len() > 0,
        is_tree(k, vertices, p, tris, depth, budget, t),
    ensures
        leaves_of(t).len() > 0,
    decreases t,
{
    if let SphereTree::Node { places, d, share, left, right } = t {
        triangles_have_spheres(
            k,
            vertices,
            p,
            side_of(tris, places, d, true, tris.len() as int),
            depth + 1,
            first_of(budget, share),
            *left,
        );
    }
}

impl MeshData {
    /// Approximates the mesh by spheres with the usual settings.
    pub fn decompose_spheres<K: SpatialMath + MeshNumerics + SphereMath>(&self, k: &K) -> (r: Vec<FitSphere>)
        requires
            mesh::corners_within(self.indices@, self.vertices@.len()),
        ensures
            are_spheres(
                k,
                self@,
                (SphereTreeParams { max_spheres: 16, max_depth: 5, min_triangles: 4 }),
                r@,
            ),
    {
        sphere_tree(k, self, &SphereTreeParams::default())
    }

    /// Approximates the mesh by spheres.
    pub fn decompose_spheres_with<K: SpatialMath + MeshNumerics + SphereMath>(
        &self,
        k: &K,
        params: &SphereTreeParams,
    ) -> (r: Vec<FitSphere>)
        requires
            mesh::corners_within(self.indices@, self.vertices@.len()),
        ensures
            are_spheres(k, self@, *params, r@),
    {
        sphere_tree(k, self, params)
    }
}

} // verus!
