//! Arithmetic that mesh algorithms are given from outside.

use vstd::prelude::*;
use crate::number::{Point3, Real, Vector3};

verus! {

/// Squared distances to a set of planes, as the upper triangle of a symmetric
/// four by four matrix.
#[derive(Clone, Copy, Debug)]
pub struct Quadric {
    pub q: [Real; 10],
}

/// Bits of the length below which a vector counts as zero.
pub const TINY_LENGTH: u64 = 0x39B4_484B_FEEB_C2A0;

/// Floating-point operations on points and quadrics.
///
/// Nothing is assumed of the results.
pub trait MeshNumerics {
    /// The count `n * ratio`, rounded up.
    fn scaled_count(&self, n: usize, ratio: Real) -> usize;

    /// Cross product of the edges `p0 p1` and `p0 p2`.
    fn edge_cross(&self, p0: Point3, p1: Point3, p2: Point3) -> Vector3;

    /// Euclidean length.
    fn norm(&self, v: Vector3) -> Real;

    /// The vector divided by a number.
    fn divided(&self, v: Vector3, by: Real) -> Vector3;

    /// Euclidean distance.
    fn distance(&self, a: Point3, b: Point3) -> Real;

    /// The point halfway between two points.
    fn midpoint(&self, a: Point3, b: Point3) -> Point3;

    /// Three times a number.
    fn tripled(&self, x: Real) -> Real;

    /// The quadric that is zero everywhere.
    fn zero_quadric(&self) -> Quadric;

    /// Quadric of the plane through `p` with unit normal `n`, weighted by half of `cross_length`.
    fn plane_quadric(&self, n: Vector3, p: Point3, cross_length: Real) -> Quadric;

    /// Sum of two quadrics.
    fn quadric_sum(&self, a: Quadric, b: Quadric) -> Quadric;

    /// Value of a quadric at a point.
    fn quadric_error(&self, q: Quadric, p: Point3) -> Real;

    /// The point where a quadric is least, if its linear system can be solved.
    fn quadric_minimum(&self, q: Quadric) -> Option<Point3>;

    /// Largest edge of the box from `lo` to `hi`.
    fn largest_extent(&self, lo: Point3, hi: Point3) -> Real;

    /// Number of grid cells per axis for `n` vertices at a reduction ratio.
    fn cells_per_axis(&self, n: usize, ratio: Real) -> usize;

    /// Grid cell of `p` when the box at `lo` with edge `extent` is cut into `cells` per axis.
    fn grid_cell(&self, p: Point3, lo: Point3, extent: Real, cells: usize) -> (i64, i64, i64);

    /// Mean of a list of points, added up in order.
    fn mean(&self, points: &Vec<Point3>) -> Point3;
}

/// Decimal text of floating-point numbers.
///
/// Nothing is assumed of the results.
pub trait RealText {
    /// The decimal text of a number.
    fn format(&self, x: Real) -> String;

    /// The number that a text stands for, if it stands for one.
    fn parse(&self, s: &str) -> Option<Real>;
}

/// Whether `r` is the unit normal of a triangle, or `fallback` for one of vanishing area.
pub open spec fn face_normal<K: MeshNumerics>(
    k: &K,
    p0: Point3,
    p1: Point3,
    p2: Point3,
    fallback: Vector3,
    r: Vector3,
) -> bool {
    exists|n: Vector3, len: Real|
        {
            &&& #[trigger] call_ensures(K::edge_cross, (k, p0, p1, p2), n)
            &&& #[trigger] call_ensures(K::norm, (k, n), len)
            &&& if (Real { bits: TINY_LENGTH }).below(len) {
                call_ensures(K::divided, (k, n, len), r)
            } else {
                r == fallback
            }
        }
}

/// Whether normals of triangles are computed alike each time.
pub open spec fn normals_alike<K: MeshNumerics>(k: &K) -> bool {
    &&& forall|a: Point3, b: Point3, c: Point3, x: Vector3, y: Vector3| #[trigger]
        call_ensures(K::edge_cross, (k, a, b, c), x) && #[trigger] call_ensures(K::edge_cross, (k, a, b, c), y)
            ==> x == y
    &&& forall|n: Vector3, x: Real, y: Real| #[trigger]
        call_ensures(K::norm, (k, n), x) && #[trigger] call_ensures(K::norm, (k, n), y) ==> x == y
    &&& forall|n: Vector3, d: Real, x: Vector3, y: Vector3| #[trigger]
        call_ensures(K::divided, (k, n, d), x) && #[trigger] call_ensures(K::divided, (k, n, d), y) ==> x == y
}

/// Unit normal of a triangle, or `fallback` where its area vanishes.
pub fn compute_face_normal<K: MeshNumerics>(
    k: &K,
    p0: Point3,
    p1: Point3,
    p2: Point3,
    fallback: Vector3,
) -> (r: Vector3)
    ensures
        face_normal(k, p0, p1, p2, fallback, r),
{
    let n = k.edge_cross(p0, p1, p2);
    let len = k.norm(n);
    if (Real { bits: TINY_LENGTH }).lt(len) {
        k.divided(n, len)
    } else {
        fallback
    }
}

} // verus!
