//! Boxes, cylinders and spheres that fit points.

use vstd::prelude::*;
use crate::decompose;
use crate::mesh;
use crate::centroidal::MassMath;
use crate::coriolis::HALF;
use crate::decompose::{decompose_with_progress, percentage, test_corners, ConvexMath, Progress, Report, Silent, VhacdParams, CONCAVITY, PHASE_BUILDING, PHASE_DONE};
use crate::matrix::LinearMath;
use crate::mesh::{MeshData, MeshView};
use crate::number::{Point3, Real, Vector3};
use crate::numerics::MeshNumerics;
use crate::spatial::{Placement, SpatialMath};
use crate::sphere_tree::SphereMath;

verus! {

/// The largest finite number.
pub const LARGEST: u64 = 0x7fef_ffff_ffff_ffff;

/// Eight.
pub const EIGHT: u64 = 0x4020_0000_0000_0000;

/// The ratio of circumference and diameter.
pub const PI: u64 = 0x4009_21fb_5444_2d18;

/// Two.
pub const TWO: u64 = 0x4000_0000_0000_0000;

/// Four thirds of the ratio of circumference and diameter.
pub const FOUR_THIRDS_PI: u64 = 0x4010_c152_382d_7365;

/// Six.
pub const SIX: u64 = 0x4018_0000_0000_0000;

/// 1e-15.
pub const THIN: u64 = 0x3cd2_03af_9ee7_5616;

/// 1e-20.
pub const VANISHING: u64 = 0x3bc7_9ca1_0c92_4223;

/// Floating-point operations behind the fitting of shapes.
///
/// Nothing is assumed of the results.
pub trait FitMath {
    /// Eigenvalues and eigenvectors of a symmetric three by three matrix.
    fn eigen(&self, m: [Real; 9]) -> ([Real; 3], [Vector3; 3]);

    /// The determinant of the matrix with the given columns.
    fn determinant3(&self, a: Vector3, b: Vector3, c: Vector3) -> Real;

    /// The rotation with the given columns.
    fn rotation_of(&self, a: Vector3, b: Vector3, c: Vector3) -> Placement;

    /// A point as seen from `center` in a frame with the given rotation.
    fn local_point(&self, rotation: Placement, center: Point3, p: Point3) -> Vector3;

    /// The point that is seen at `v` from `center` in a frame with the given rotation.
    fn placed_point(&self, rotation: Placement, center: Point3, v: Vector3) -> Point3;

    /// The scalar product of `a` with the cross product of `b` and `c`.
    fn triple(&self, a: Point3, b: Point3, c: Point3) -> Real;
}

/// A shape with its dimensions.
#[derive(Clone, Copy, PartialEq, Eq, Structural, Debug)]
pub enum PrimitiveKind {
    /// A box with half its edges.
    Box { hx: Real, hy: Real, hz: Real },
    /// A cylinder with half its length.
    Cylinder { radius: Real, half_length: Real },
    /// A sphere.
    Sphere { radius: Real },
}

/// A shape at a place.
#[derive(Clone, Copy, PartialEq, Eq, Structural, Debug)]
pub struct FitPrimitive {
    pub kind: PrimitiveKind,
    pub center: Point3,
    /// Orientation.
    pub rotation: Placement,
}

/// Whether `r` is the product of four numbers, multiplied from the first on.
pub open spec fn product_of_four<K: SpatialMath>(k: &K, a: Real, b: Real, c: Real, d: Real, r: Real) -> bool {
    exists|x: Real, y: Real|
        {
            &&& #[trigger] call_ensures(K::product, (k, a, b), x)
            &&& #[trigger] call_ensures(K::product, (k, x, c), y)
            &&& call_ensures(K::product, (k, y, d), r)
        }
}

fn multiply_four<K: SpatialMath>(k: &K, a: Real, b: Real, c: Real, d: Real) -> (r: Real)
    ensures
        product_of_four(k, a, b, c, d, r),
{
    let x = k.product(a, b);
    let y = k.product(x, c);
    assert(call_ensures(K::product, (k, a, b), x));
    assert(call_ensures(K::product, (k, x, c), y));
    k.product(y, d)
}

impl PrimitiveKind {
    /// Whether `v` is the volume of the shape.
    pub open spec fn has_volume<K: SpatialMath>(self, k: &K, v: Real) -> bool {
        match self {
            PrimitiveKind::Box { hx, hy, hz } => product_of_four(k, Real { bits: EIGHT }, hx, hy, hz, v),
            PrimitiveKind::Cylinder { radius, half_length } => exists|x: Real| #[trigger]
                product_of_four(k, Real { bits: PI }, radius, radius, Real { bits: TWO }, x)
                    && call_ensures(K::product, (k, x, half_length), v),
            PrimitiveKind::Sphere { radius } => product_of_four(
                k,
                Real { bits: FOUR_THIRDS_PI },
                radius,
                radius,
                radius,
                v,
            ),
        }
    }

    /// Volume of the shape.
    pub fn volume<K: SpatialMath>(&self, k: &K) -> (v: Real)
        ensures
            self.has_volume(k, v),
    {
        match *self {
            PrimitiveKind::Box { hx, hy, hz } => multiply_four(k, Real { bits: EIGHT }, hx, hy, hz),
            PrimitiveKind::Cylinder { radius, half_length } => {
                let x = multiply_four(k, Real { bits: PI }, radius, radius, Real { bits: TWO });
                assert(product_of_four(
                    k,
                    Real { bits: PI },
                    radius,
                    radius,
                    Real { bits: TWO },
                    x,
                ));
                k.product(x, half_length)
            },
            PrimitiveKind::Sphere { radius } => multiply_four(
                k,
                Real { bits: FOUR_THIRDS_PI },
                radius,
                radius,
                radius,
            ),
        }
    }

    /// Human-readable label.
    pub fn label(&self) -> (r: &'static str)
        ensures
            r@ == match *self {
                PrimitiveKind::Box { .. } => "Box"@,
                PrimitiveKind::Cylinder { .. } => "Cylinder"@,
                PrimitiveKind::Sphere { .. } => "Sphere"@,
            },
    {
        match self {
            Self::Box { .. } => "Box",
            Self::Cylinder { .. } => "Cylinder",
            Self::Sphere { .. } => "Sphere",
        }
    }
}

// ── Axes ──

/// Whether two of three numbers have to change places to be in order.
pub open spec fn out_of_order(e: [Real; 3], a: usize, b: usize) -> bool {
    e[b as int].below(e[a as int])
}

/// The places of three numbers from the least to the greatest; equal ones stay in order.
pub open spec fn ascending(e: [Real; 3]) -> (usize, usize, usize) {
    let (a, b): (usize, usize) = if out_of_order(e, 0, 1) {
        (1, 0)
    } else {
        (0, 1)
    };
    if out_of_order(e, b, 2) {
        if out_of_order(e, a, 2) {
            (2, a, b)
        } else {
            (a, 2, b)
        }
    } else {
        (a, b, 2)
    }
}

fn sort_three(e: [Real; 3]) -> (r: (usize, usize, usize))
    ensures
        r == ascending(e),
        r.0 < 3,
        r.1 < 3,
        r.2 < 3,
{
    let (a, b): (usize, usize) = if e[1].lt(e[0]) {
        (1, 0)
    } else {
        (0, 1)
    };
    if e[2].lt(e[b]) {
        if e[2].lt(e[a]) {
            (2, a, b)
        } else {
            (a, 2, b)
        }
    } else {
        (a, b, 2)
    }
}

/// Numbers that are put in order ascend.
pub proof fn ascending_ascends(e: [Real; 3])
    requires
        !e[0].nan(),
        !e[1].nan(),
        !e[2].nan(),
    ensures
        ({
            let o = ascending(e);
            &&& e[o.0 as int].at_most(e[o.1 as int])
            &&& e[o.1 as int].at_most(e[o.2 as int])
            &&& o.0 != o.1
            &&& o.1 != o.2
            &&& o.0 != o.2
        }),
{
}

/// The vector in the opposite direction.
pub open spec fn opposite(v: Vector3) -> Vector3 {
    Vector3 { x: v.x.negated(), y: v.y.negated(), z: v.z.negated() }
}

/// The first axis, turned round if the determinant is negative.
pub open spec fn right_handed(a: Vector3, det: Real) -> Vector3 {
    if det.below(Real::zero()) {
        opposite(a)
    } else {
        a
    }
}

/// Whether `f` are the axes of spread, from the least to the greatest, as a right-handed frame.
pub open spec fn in_order<K: FitMath>(
    k: &K,
    e: [Real; 3],
    axes: [Vector3; 3],
    f: (Vector3, Vector3, Vector3),
) -> bool {
    let o = ascending(e);
    let (a, b, c) = (axes[o.0 as int], axes[o.1 as int], axes[o.2 as int]);
    exists|det: Real| #[trigger]
        call_ensures(K::determinant3, (k, a, b, c), det) && f == (right_handed(a, det), b, c)
}

/// Whether `f` are the axes along which points spread about their mean.
pub open spec fn principal_axes<K: SphereMath + FitMath>(
    k: &K,
    points: Vec<Point3>,
    mean: Point3,
    f: (Vector3, Vector3, Vector3),
) -> bool {
    exists|m: [Real; 9], e: ([Real; 3], [Vector3; 3])|
        {
            &&& #[trigger] call_ensures(K::covariance, (k, &points, mean), m)
            &&& #[trigger] call_ensures(K::eigen, (k, m), e)
            &&& in_order(k, e.0, e.1, f)
        }
}

fn compute_principal_axes<K: SphereMath + FitMath>(k: &K, points: &Vec<Point3>, mean: Point3) -> (f: (
    Vector3,
    Vector3,
    Vector3,
))
    ensures
        principal_axes(k, *points, mean, f),
{
    let m = k.covariance(points, mean);
    let e = k.eigen(m);
    assert(call_ensures(K::covariance, (k, points, mean), m));
    assert(call_ensures(K::eigen, (k, m), e));
    let o = sort_three(e.0);
    let a = e.1[o.0];
    let b = e.1[o.1];
    let c = e.1[o.2];
    let det = k.determinant3(a, b, c);
    assert(call_ensures(K::determinant3, (k, a, b, c), det));
    let first = if det.lt(Real::zero()) {
        Vector3 { x: a.x.neg(), y: a.y.neg(), z: a.z.neg() }
    } else {
        a
    };
    let f = (first, b, c);
    assert(in_order(k, e.0, e.1, f));
    f
}

/// The axes of a frame, turned over so that the given one becomes the last.
pub open spec fn with_last(f: (Vector3, Vector3, Vector3), axis: int) -> (Vector3, Vector3, Vector3) {
    if axis == 0 {
        (f.1, f.2, f.0)
    } else if axis == 1 {
        (f.2, f.0, f.1)
    } else {
        f
    }
}

/// Whether `r` is the rotation onto the axes of a frame with the given one as the last.
pub open spec fn turned_to<K: FitMath>(k: &K, f: (Vector3, Vector3, Vector3), axis: int, r: Placement) -> bool {
    let g = with_last(f, axis);
    call_ensures(K::rotation_of, (k, g.0, g.1, g.2), r)
}

fn turn_to<K: FitMath>(k: &K, f: (Vector3, Vector3, Vector3), axis: usize) -> (r: Placement)
    ensures
        turned_to(k, f, axis as int, r),
{
    if axis == 0 {
        k.rotation_of(f.1, f.2, f.0)
    } else if axis == 1 {
        k.rotation_of(f.2, f.0, f.1)
    } else {
        k.rotation_of(f.0, f.1, f.2)
    }
}

// ── The box ──

/// Whether `locals` are the points as seen from `center` in a frame with the given rotation.
pub open spec fn seen_from_center<K: FitMath>(
    k: &K,
    rotation: Placement,
    center: Point3,
    points: Seq<Point3>,
    locals: Seq<Vector3>,
) -> bool {
    &&& locals.len() == points.len()
    &&& forall|i: int|
        0 <= i < points.len() ==> call_ensures(
            K::local_point,
            (k, rotation, center, points[i]),
            #[trigger] locals[i],
        )
}

/// The smaller and the larger coordinates of two vectors.
pub open spec fn smaller_of(a: Vector3, b: Vector3) -> Vector3 {
    Vector3 { x: a.x.smaller(b.x), y: a.y.smaller(b.y), z: a.z.smaller(b.z) }
}

/// The larger coordinates of two vectors.
pub open spec fn larger_of(a: Vector3, b: Vector3) -> Vector3 {
    Vector3 { x: a.x.larger(b.x), y: a.y.larger(b.y), z: a.z.larger(b.z) }
}

/// The least coordinates of the first `n` vectors.
pub open spec fn least_of(v: Seq<Vector3>, n: int) -> Vector3
    decreases n,
{
    if n <= 0 {
        let x = Real { bits: LARGEST };
        Vector3 { x, y: x, z: x }
    } else {
        smaller_of(least_of(v, n - 1), v[n - 1])
    }
}

/// The greatest coordinates of the first `n` vectors.
pub open spec fn greatest_of(v: Seq<Vector3>, n: int) -> Vector3
    decreases n,
{
    if n <= 0 {
        let x = (Real { bits: LARGEST }).negated();
        Vector3 { x, y: x, z: x }
    } else {
        larger_of(greatest_of(v, n - 1), v[n - 1])
    }
}

/// Whether `r` is half the difference of two numbers.
pub open spec fn half_difference<K: SpatialMath>(k: &K, a: Real, b: Real, r: Real) -> bool {
    exists|d: Real| #[trigger]
        call_ensures(K::difference, (k, a, b), d) && call_ensures(K::product, (k, d, Real { bits: HALF }), r)
}

/// Whether `r` is half the sum of two numbers.
pub open spec fn half_sum<K: SpatialMath>(k: &K, a: Real, b: Real, r: Real) -> bool {
    exists|d: Real| #[trigger]
        call_ensures(K::sum, (k, a, b), d) && call_ensures(K::product, (k, d, Real { bits: HALF }), r)
}

fn halve_difference<K: SpatialMath>(k: &K, a: Real, b: Real) -> (r: Real)
    ensures
        half_difference(k, a, b, r),
{
    let d = k.difference(a, b);
    assert(call_ensures(K::difference, (k, a, b), d));
    k.product(d, Real { bits: HALF })
}

fn halve_sum<K: SpatialMath>(k: &K, a: Real, b: Real) -> (r: Real)
    ensures
        half_sum(k, a, b, r),
{
    let d = k.sum(a, b);
    assert(call_ensures(K::sum, (k, a, b), d));
    k.product(d, Real { bits: HALF })
}

/// Whether a box around vectors has the given half edges and middle.
pub open spec fn box_around<K: SpatialMath>(k: &K, locals: Seq<Vector3>, half: Vector3, middle: Vector3) -> bool {
    let lo = least_of(locals, locals.len() as int);
    let hi = greatest_of(locals, locals.len() as int);
    &&& half_difference(k, hi.x, lo.x, half.x)
    &&& half_difference(k, hi.y, lo.y, half.y)
    &&& half_difference(k, hi.z, lo.z, half.z)
    &&& half_sum(k, hi.x, lo.x, middle.x)
    &&& half_sum(k, hi.y, lo.y, middle.y)
    &&& half_sum(k, hi.z, lo.z, middle.z)
}

fn compute_box<K: SpatialMath>(k: &K, locals: &Vec<Vector3>) -> (r: (Vector3, Vector3))
    ensures
        box_around(k, locals@, r.0, r.1),
{
    let big = Real { bits: LARGEST };
    let small = big.neg();
    let mut lo = Vector3 { x: big, y: big, z: big };
    let mut hi = Vector3 { x: small, y: small, z: small };
    for i in 0..locals.len()
        invariant
            lo == least_of(locals@, i as int),
            hi == greatest_of(locals@, i as int),
    {
        let v = locals[i];
        lo = Vector3 { x: lo.x.min(v.x), y: lo.y.min(v.y), z: lo.z.min(v.z) };
        hi = Vector3 { x: hi.x.max(v.x), y: hi.y.max(v.y), z: hi.z.max(v.z) };
    }
    let half = Vector3 {
        x: halve_difference(k, hi.x, lo.x),
        y: halve_difference(k, hi.y, lo.y),
        z: halve_difference(k, hi.z, lo.z),
    };
    let middle = Vector3 {
        x: halve_sum(k, hi.x, lo.x),
        y: halve_sum(k, hi.y, lo.y),
        z: halve_sum(k, hi.z, lo.z),
    };
    (half, middle)
}

// ── Radii ──

/// Whether `r` is the sum of the squares of two numbers.
pub open spec fn squares<K: SpatialMath>(k: &K, a: Real, b: Real, r: Real) -> bool {
    exists|x: Real, y: Real|
        {
            &&& #[trigger] call_ensures(K::product, (k, a, a), x)
            &&& #[trigger] call_ensures(K::product, (k, b, b), y)
            &&& call_ensures(K::sum, (k, x, y), r)
        }
}

fn add_squares<K: SpatialMath>(k: &K, a: Real, b: Real) -> (r: Real)
    ensures
        squares(k, a, b, r),
{
    let x = k.product(a, a);
    let y = k.product(b, b);
    assert(call_ensures(K::product, (k, a, a), x));
    assert(call_ensures(K::product, (k, b, b), y));
    k.sum(x, y)
}

/// Whether `r` is the sum of the squares of the coordinates that count: two across an axis, or
/// all three.
pub open spec fn squared_radius<K: SpatialMath>(k: &K, v: Vector3, axis: Option<int>, r: Real) -> bool {
    match axis {
        Some(a) => squares(k, across(v, a).0, across(v, a).1, r),
        None => exists|x: Real, z: Real|
            {
                &&& #[trigger] squares(k, v.x, v.y, x)
                &&& #[trigger] call_ensures(K::product, (k, v.z, v.z), z)
                &&& call_ensures(K::sum, (k, x, z), r)
            },
    }
}

/// The two coordinates across an axis.
pub open spec fn across(v: Vector3, axis: int) -> (Real, Real) {
    if axis == 0 {
        (v.y, v.z)
    } else if axis == 1 {
        (v.x, v.z)
    } else {
        (v.x, v.y)
    }
}

/// The coordinate along an axis.
pub open spec fn along(v: Vector3, axis: int) -> Real {
    if axis == 0 {
        v.x
    } else if axis == 1 {
        v.y
    } else {
        v.z
    }
}

/// The axis that a number stands for; three stands for none.
pub open spec fn axis_of(a: int) -> Option<int> {
    if a < 3 {
        Some(a)
    } else {
        None
    }
}

fn compute_squared_radius<K: SpatialMath>(k: &K, v: Vector3, axis: usize) -> (r: Real)
    ensures
        squared_radius(k, v, axis_of(axis as int), r),
{
    if axis == 0 {
        add_squares(k, v.y, v.z)
    } else if axis == 1 {
        add_squares(k, v.x, v.z)
    } else if axis == 2 {
        add_squares(k, v.x, v.y)
    } else {
        let x = add_squares(k, v.x, v.y);
        let z = k.product(v.z, v.z);
        assert(squares(k, v.x, v.y, x));
        assert(call_ensures(K::product, (k, v.z, v.z), z));
        k.sum(x, z)
    }
}

/// Whether `r` is the squared radius of a vector as seen from the middle of the box.
pub open spec fn radius_from_middle<K: SpatialMath + MassMath>(
    k: &K,
    v: Vector3,
    middle: Vector3,
    axis: Option<int>,
    r: Real,
) -> bool {
    exists|d: Vector3| #[trigger]
        call_ensures(K::offset, (k, v, middle), d) && squared_radius(k, d, axis, r)
}

/// The largest of the first `n` numbers and zero.
pub open spec fn largest_of(v: Seq<Real>, n: int) -> Real
    decreases n,
{
    if n <= 0 {
        Real { bits: 0 }
    } else {
        largest_of(v, n - 1).larger(v[n - 1])
    }
}

/// Whether `r` is the radius that just encloses the vectors, but no more than that of the box.
pub open spec fn enclosing_radius<K: SpatialMath + LinearMath + MassMath>(
    k: &K,
    locals: Seq<Vector3>,
    half: Vector3,
    middle: Vector3,
    axis: Option<int>,
    r: Real,
) -> bool {
    exists|box_squared: Real, box_radius: Real, radii: Seq<Real>, exact: Real|
        {
            &&& #[trigger] squared_radius(k, half, axis, box_squared)
            &&& #[trigger] call_ensures(K::root, (k, box_squared), box_radius)
            &&& #[trigger] are_radii(k, locals, middle, axis, radii)
            &&& #[trigger] call_ensures(K::root, (k, largest_of(radii, radii.len() as int)), exact)
            &&& r == exact.smaller(box_radius)
        }
}

/// Whether `radii` are the squared radii of the vectors as seen from the middle of the box.
pub open spec fn are_radii<K: SpatialMath + MassMath>(
    k: &K,
    locals: Seq<Vector3>,
    middle: Vector3,
    axis: Option<int>,
    radii: Seq<Real>,
) -> bool {
    &&& radii.len() == locals.len()
    &&& forall|i: int|
        0 <= i < locals.len() ==> radius_from_middle(k, locals[i], middle, axis, #[trigger] radii[i])
}

fn compute_enclosing_radius<K: SpatialMath + LinearMath + MassMath>(
    k: &K,
    locals: &Vec<Vector3>,
    half: Vector3,
    middle: Vector3,
    axis: usize,
) -> (r: Real)
    ensures
        enclosing_radius(k, locals@, half, middle, axis_of(axis as int), r),
{
    let box_squared = compute_squared_radius(k, half, axis);
    let box_radius = k.root(box_squared);
    let mut largest = Real { bits: 0 };
    let ghost mut radii: Seq<Real> = Seq::empty();
    for i in 0..locals.len()
        invariant
            radii.len() == i,
            forall|j: int|
                0 <= j < i ==> radius_from_middle(
                    k,
                    locals@[j],
                    middle,
                    axis_of(axis as int),
                    #[trigger] radii[j],
                ),
            largest == largest_of(radii, i as int),
    {
        let d = k.offset(locals[i], middle);
        let x = compute_squared_radius(k, d, axis);
        assert(call_ensures(K::offset, (k, locals@[i as int], middle), d));
        assert(radius_from_middle(k, locals@[i as int], middle, axis_of(axis as int), x));
        largest = largest.max(x);
        let ghost before = radii;
        proof {
            radii = radii.push(x);
            largest_frame(before, radii, i as int);
        }
    }
    let exact = k.root(largest);
    assert(squared_radius(k, half, axis_of(axis as int), box_squared));
    assert(call_ensures(K::root, (k, box_squared), box_radius));
    assert(are_radii(k, locals@, middle, axis_of(axis as int), radii));
    assert(call_ensures(K::root, (k, largest_of(radii, radii.len() as int)), exact));
    exact.min(box_radius)
}

proof fn largest_frame(a: Seq<Real>, b: Seq<Real>, n: int)
    requires
        forall|i: int| 0 <= i < n ==> a[i] == b[i],
    ensures
        largest_of(a, n) == largest_of(b, n),
    decreases n,
{
    if n > 0 {
        largest_frame(a, b, n - 1);
    }
}

// ── Cylinders ──

/// A shape, its volume, and the axis of the points that is its last.
#[derive(Clone, Copy, PartialEq, Eq, Structural, Debug)]
pub struct Candidate {
    pub kind: PrimitiveKind,
    pub volume: Real,
    pub axis: usize,
}

/// Whether a cylinder is too thin to count.
pub open spec fn too_thin(radius: Real, half_length: Real) -> bool {
    radius.below(Real { bits: THIN }) && half_length.below(Real { bits: THIN })
}

/// Whether `c` is the cylinder around vectors along an axis, unless it is too thin.
pub open spec fn cylinder_along<K: SpatialMath + LinearMath + MassMath>(
    k: &K,
    locals: Seq<Vector3>,
    half: Vector3,
    middle: Vector3,
    axis: int,
    c: Option<Candidate>,
) -> bool {
    exists|radius: Real|
        {
            &&& #[trigger] enclosing_radius(k, locals, half, middle, Some(axis), radius)
            &&& match c {
                Some(c) => {
                    &&& !too_thin(radius, along(half, axis))
                    &&& c.kind == (PrimitiveKind::Cylinder { radius, half_length: along(half, axis) })
                    &&& c.kind.has_volume(k, c.volume)
                    &&& c.axis == axis
                },
                None => too_thin(radius, along(half, axis)),
            }
        }
}

fn compute_cylinder<K: SpatialMath + LinearMath + MassMath>(
    k: &K,
    locals: &Vec<Vector3>,
    half: Vector3,
    middle: Vector3,
    axis: usize,
) -> (c: Option<Candidate>)
    requires
        axis < 3,
    ensures
        cylinder_along(k, locals@, half, middle, axis as int, c),
{
    let radius = compute_enclosing_radius(k, locals, half, middle, axis);
    assert(enclosing_radius(k, locals@, half, middle, Some(axis as int), radius));
    let half_length = if axis == 0 {
        half.x
    } else if axis == 1 {
        half.y
    } else {
        half.z
    };
    if radius.lt(Real { bits: THIN }) && half_length.lt(Real { bits: THIN }) {
        return None;
    }
    let kind = PrimitiveKind::Cylinder { radius, half_length };
    Some(Candidate { kind, volume: kind.volume(k), axis })
}

/// The smallest of the first `n` candidates, the first one if there are several.
pub open spec fn smallest(c: Seq<Option<Candidate>>, n: int) -> Option<Candidate>
    decreases n,
{
    if n <= 0 {
        None
    } else {
        match (smallest(c, n - 1), c[n - 1]) {
            (Some(a), Some(b)) => if b.volume.below(a.volume) {
                Some(b)
            } else {
                Some(a)
            },
            (None, b) => b,
            (a, None) => a,
        }
    }
}

/// Whether `c` are the cylinders along the three axes.
pub open spec fn are_cylinders<K: SpatialMath + LinearMath + MassMath>(
    k: &K,
    locals: Seq<Vector3>,
    half: Vector3,
    middle: Vector3,
    c: Seq<Option<Candidate>>,
) -> bool {
    &&& c.len() == 3
    &&& forall|a: int| 0 <= a < 3 ==> cylinder_along(k, locals, half, middle, a, #[trigger] c[a])
}

fn best_cylinder<K: SpatialMath + LinearMath + MassMath>(
    k: &K,
    locals: &Vec<Vector3>,
    half: Vector3,
    middle: Vector3,
) -> (r: (Option<Candidate>, Ghost<Seq<Option<Candidate>>>))
    ensures
        are_cylinders(k, locals@, half, middle, r.1@),
        r.0 == smallest(r.1@, 3),
{
    let a = compute_cylinder(k, locals, half, middle, 0);
    let b = compute_cylinder(k, locals, half, middle, 1);
    let c = compute_cylinder(k, locals, half, middle, 2);
    let best = lesser(lesser(a, b), c);
    let ghost all = seq![a, b, c];
    proof {
        reveal_with_fuel(smallest, 4);
        assert(smallest(all, 1) == a);
    }
    (best, Ghost(all))
}

/// The smaller of two candidates, the first one if they are equal.
fn lesser(a: Option<Candidate>, b: Option<Candidate>) -> (r: Option<Candidate>)
    ensures
        r == match (a, b) {
            (Some(x), Some(y)) => if y.volume.below(x.volume) {
                Some(y)
            } else {
                Some(x)
            },
            (None, y) => y,
            (x, None) => x,
        },
{
    match (a, b) {
        (Some(x), Some(y)) => if y.volume.lt(x.volume) {
            Some(y)
        } else {
            Some(x)
        },
        (None, y) => y,
        (x, None) => x,
    }
}

// ── Volumes of hulls ──

/// Whether `r` is the sum of the volumes of six times the first `n` tetrahedra over the origin.
pub open spec fn tetrahedra<K: SpatialMath + FitMath>(
    k: &K,
    v: Seq<Point3>,
    t: Seq<[u32; 3]>,
    n: int,
    r: Real,
) -> bool
    decreases n,
{
    if n <= 0 {
        r == Real::zero()
    } else {
        exists|p: Real, x: Real|
            {
                &&& tetrahedra(k, v, t, n - 1, p)
                &&& #[trigger] call_ensures(
                    K::triple,
                    (
                        k,
                        v[t[n - 1][0] as int],
                        v[t[n - 1][1] as int],
                        v[t[n - 1][2] as int],
                    ),
                    x,
                )
                &&& #[trigger] call_ensures(K::sum, (k, p, x), r)
            }
    }
}

/// Whether `r` is the volume of the convex hull of points: none if they are fewer than four, or
/// the hull has no triangles between its vertices.
pub open spec fn hull_volume<K: SpatialMath + ConvexMath + FitMath>(k: &K, points: Vec<Point3>, r: Real) -> bool {
    if points@.len() < 4 {
        r == Real::zero()
    } else {
        exists|h: (Vec<Point3>, Vec<[u32; 3]>)|
            {
                &&& #[trigger] call_ensures(K::convex_hull, (k, &points), h)
                &&& if h.1@.len() == 0 || !mesh::corners_within(h.1@, h.0@.len()) {
                    r == Real::zero()
                } else {
                    sixth_of_tetrahedra(k, h.0@, h.1@, r)
                }
            }
    }
}

/// Whether `r` is a sixth of the tetrahedra, without sign.
pub open spec fn sixth_of_tetrahedra<K: SpatialMath + FitMath>(k: &K, v: Seq<Point3>, t: Seq<[u32; 3]>, r: Real) -> bool {
    exists|sum: Real, x: Real|
        {
            &&& #[trigger] tetrahedra(k, v, t, t.len() as int, sum)
            &&& #[trigger] call_ensures(K::quotient, (k, sum, Real { bits: SIX }), x)
            &&& r == x.unsigned()
        }
}

fn convex_hull_volume<K: SpatialMath + ConvexMath + FitMath>(k: &K, points: &Vec<Point3>) -> (r: Real)
    ensures
        hull_volume(k, *points, r),
{
    if points.len() < 4 {
        return Real::zero();
    }
    let h = k.convex_hull(points);
    assert(call_ensures(K::convex_hull, (k, points), h));
    if h.1.len() == 0 || !test_corners(&h.1, h.0.len()) {
        return Real::zero();
    }
    let mut sum = Real::zero();
    for i in 0..h.1.len()
        invariant
            mesh::corners_within(h.1@, h.0@.len()),
            tetrahedra(k, h.0@, h.1@, i as int, sum),
    {
        let t = h.1[i];
        assert(h.1@[i as int][0] < h.0@.len() && h.1@[i as int][1] < h.0@.len() && h.1@[i as int][2]
            < h.0@.len());
        let p = sum;
        let x = k.triple(h.0[t[0] as usize], h.0[t[1] as usize], h.0[t[2] as usize]);
        sum = k.sum(p, x);
        assert(call_ensures(
            K::triple,
            (
                k,
                h.0@[h.1@[i as int][0] as int],
                h.0@[h.1@[i as int][1] as int],
                h.0@[h.1@[i as int][2] as int],
            ),
            x,
        ));
        assert(call_ensures(K::sum, (k, p, x), sum));
    }
    let x = k.quotient(sum, Real { bits: SIX });
    assert(tetrahedra(k, h.0@, h.1@, h.1@.len() as int, sum));
    assert(call_ensures(K::quotient, (k, sum, Real { bits: SIX }), x));
    let r = x.abs();
    assert(sixth_of_tetrahedra(k, h.0@, h.1@, r));
    r
}

// ── Choice ──

/// Whether `s` tells how well a shape with a volume fits a hull with a volume: how much of it the
/// hull fills, or how small it is if that is undefined.
pub open spec fn is_score<K: SpatialMath>(k: &K, hull: Real, volume: Real, s: Real) -> bool {
    if (Real { bits: VANISHING }).below(hull) && (Real { bits: VANISHING }).below(volume) {
        call_ensures(K::quotient, (k, hull, volume), s)
    } else {
        s == volume.negated()
    }
}

/// Whether `s` is the score of a shape.
pub open spec fn scores<K: SpatialMath>(k: &K, hull: Real, kind: PrimitiveKind, s: Real) -> bool {
    exists|v: Real| #[trigger] kind.has_volume(k, v) && is_score(k, hull, v, s)
}

fn score<K: SpatialMath>(k: &K, hull: Real, kind: PrimitiveKind) -> (s: Real)
    ensures
        scores(k, hull, kind, s),
{
    let v = kind.volume(k);
    assert(kind.has_volume(k, v));
    if (Real { bits: VANISHING }).lt(hull) && (Real { bits: VANISHING }).lt(v) {
        k.quotient(hull, v)
    } else {
        v.neg()
    }
}

/// A shape and the axis of the points that is its last.
pub type Shape = (PrimitiveKind, usize);

/// The shape with the best score: the box unless the cylinder is better, and that of them unless
/// the sphere is better.
pub open spec fn best_of(cube: (Shape, Real), cylinder: Option<(Shape, Real)>, sphere: (Shape, Real)) -> Shape {
    let first = match cylinder {
        Some(c) => if cube.1.below(c.1) {
            c
        } else {
            cube
        },
        None => cube,
    };
    if first.1.below(sphere.1) {
        sphere.0
    } else {
        first.0
    }
}

/// A candidate with a score.
pub open spec fn with_score(c: Option<Candidate>, score: Real) -> Option<(Shape, Real)> {
    match c {
        Some(c) => Some(((c.kind, c.axis), score)),
        None => None,
    }
}

/// Whether the scores are those of the box, the best cylinder and the sphere, and `s` is the
/// shape with the best of them.
pub open spec fn wins<K: SpatialMath>(
    k: &K,
    hull: Real,
    half: Vector3,
    cylinder: Option<Candidate>,
    radius: Real,
    marks: (Real, Real, Real),
    s: Shape,
) -> bool {
    let cube = PrimitiveKind::Box { hx: half.x, hy: half.y, hz: half.z };
    let sphere = PrimitiveKind::Sphere { radius };
    &&& scores(k, hull, cube, marks.0)
    &&& match cylinder {
        Some(c) => scores(k, hull, c.kind, marks.1),
        None => true,
    }
    &&& scores(k, hull, sphere, marks.2)
    &&& s == best_of(((cube, 2), marks.0), with_score(cylinder, marks.1), ((sphere, 2), marks.2))
}

/// Whether `s` is the best shape around vectors.
pub open spec fn is_best<K: SpatialMath + LinearMath + MassMath>(
    k: &K,
    hull: Real,
    locals: Seq<Vector3>,
    half: Vector3,
    middle: Vector3,
    s: Shape,
) -> bool {
    exists|cylinders: Seq<Option<Candidate>>, radius: Real, marks: (Real, Real, Real)|
        {
            &&& are_cylinders(k, locals, half, middle, cylinders)
            &&& enclosing_radius(k, locals, half, middle, None, radius)
            &&& #[trigger] wins(k, hull, half, smallest(cylinders, 3), radius, marks, s)
        }
}

fn choose_shape<K: SpatialMath + LinearMath + MassMath>(
    k: &K,
    hull: Real,
    locals: &Vec<Vector3>,
    half: Vector3,
    middle: Vector3,
) -> (s: Shape)
    ensures
        is_best(k, hull, locals@, half, middle, s),
{
    let cube = PrimitiveKind::Box { hx: half.x, hy: half.y, hz: half.z };
    let (cylinder, all) = best_cylinder(k, locals, half, middle);
    let radius = compute_enclosing_radius(k, locals, half, middle, 3);
    let sphere = PrimitiveKind::Sphere { radius };
    let cube_score = score(k, hull, cube);
    let mut best: Shape = (cube, 2);
    let mut best_score = cube_score;
    let mut cylinder_score = Real { bits: 0 };
    if let Some(c) = cylinder {
        cylinder_score = score(k, hull, c.kind);
        if best_score.lt(cylinder_score) {
            best = (c.kind, c.axis);
            best_score = cylinder_score;
        }
    }
    let sphere_score = score(k, hull, sphere);
    if best_score.lt(sphere_score) {
        best = (sphere, 2);
    }
    proof {
        assert(are_cylinders(k, locals@, half, middle, all@));
        assert(enclosing_radius(k, locals@, half, middle, None, radius));
        assert(wins(
            k,
            hull,
            half,
            smallest(all@, 3),
            radius,
            (cube_score, cylinder_score, sphere_score),
            best,
        ));
    }
    best
}

/// What a shape is fitted to points with: mean, axes, rotation onto them, points as seen there,
/// half edges and middle of the box around these, and volume of the hull.
pub struct Fitting {
    pub mean: Point3,
    pub axes: (Vector3, Vector3, Vector3),
    pub frame: Placement,
    pub locals: Seq<Vector3>,
    pub half: Vector3,
    pub middle: Vector3,
    pub hull: Real,
}

/// Whether points are fitted with the given quantities.
pub open spec fn is_fitting<K: SpatialMath + LinearMath + MassMath + MeshNumerics + SphereMath + ConvexMath + FitMath>(
    k: &K,
    points: Vec<Point3>,
    f: Fitting,
) -> bool {
    &&& call_ensures(K::mean, (k, &points), f.mean)
    &&& principal_axes(k, points, f.mean, f.axes)
    &&& turned_to(k, f.axes, 2, f.frame)
    &&& seen_from_center(k, f.frame, f.mean, points@, f.locals)
    &&& box_around(k, f.locals, f.half, f.middle)
    &&& hull_volume(k, points, f.hull)
}

/// Whether `r` is the shape that fits points best; the axis of a cylinder is the last one of its
/// frame.
pub open spec fn fits_points<K: SpatialMath + LinearMath + MassMath + MeshNumerics + SphereMath + ConvexMath + FitMath>(
    k: &K,
    points: Vec<Point3>,
    r: FitPrimitive,
) -> bool {
    exists|f: Fitting, axis: usize|
        {
            &&& #[trigger] is_fitting(k, points, f)
            &&& #[trigger] is_best(k, f.hull, f.locals, f.half, f.middle, (r.kind, axis))
            &&& call_ensures(K::placed_point, (k, f.frame, f.mean, f.middle), r.center)
            &&& turned_to(k, f.axes, axis as int, r.rotation)
        }
}

/// The shape that fits points best; the axis of a cylinder is the last one of its frame.
pub fn fit_primitive_to_points<
    K: SpatialMath + LinearMath + MassMath + MeshNumerics + SphereMath + ConvexMath + FitMath,
>(k: &K, points: &Vec<Point3>) -> (r: FitPrimitive)
    requires
        points@.len() >= 1,
    ensures
        fits_points(k, *points, r),
{
    let mean = k.mean(points);
    let axes = compute_principal_axes(k, points, mean);
    let frame = turn_to(k, axes, 2);
    let mut locals: Vec<Vector3> = Vec::new();
    for i in 0..points.len()
        invariant
            locals@.len() == i,
            forall|j: int|
                0 <= j < i ==> call_ensures(
                    K::local_point,
                    (k, frame, mean, points@[j]),
                    #[trigger] locals@[j],
                ),
    {
        locals.push(k.local_point(frame, mean, points[i]));
    }
    let (half, middle) = compute_box(k, &locals);
    let center = k.placed_point(frame, mean, middle);
    let hull = convex_hull_volume(k, points);
    let shape = choose_shape(k, hull, &locals, half, middle);
    let rotation = turn_to(k, axes, shape.1);
    let r = FitPrimitive { kind: shape.0, center, rotation };
    proof {
        let f = Fitting { mean, axes, frame, locals: locals@, half, middle, hull };
        assert(is_fitting(k, *points, f));
        assert(is_best(k, f.hull, f.locals, f.half, f.middle, (r.kind, shape.1)));
    }
    r
}

/// Whether `r` are the shapes that fit those of the first `n` hulls with enough vertices, in order.
pub open spec fn fits_hulls<K: SpatialMath + LinearMath + MassMath + MeshNumerics + SphereMath + ConvexMath + FitMath>(
    k: &K,
    hulls: Seq<MeshView>,
    n: int,
    r: Seq<FitPrimitive>,
) -> bool
    decreases n,
{
    if n <= 0 {
        r.len() == 0
    } else if hulls[n - 1].vertices.len() >= 3 {
        &&& r.len() > 0
        &&& exists|points: Vec<Point3>|
            points@ == hulls[n - 1].vertices && #[trigger] fits_points(k, points, r.last())
        &&& fits_hulls(k, hulls, n - 1, r.drop_last())
    } else {
        fits_hulls(k, hulls, n - 1, r)
    }
}

/// What is told about the fitting of shapes to a mesh with `parts` parts and `hulls` hulls.
pub open spec fn fitting_reports(m: MeshView, parts: int, hulls: int) -> Seq<Report> {
    decompose::decomposition_steps(m, parts) + if hulls == 0 {
        seq![Report::Enter(PHASE_DONE)]
    } else {
        seq![Report::Phase(PHASE_BUILDING)] + decompose::percentages(hulls, hulls) + seq![
            Report::Percent(100),
            Report::Phase(PHASE_DONE),
        ]
    }
}

/// That all is done is told once, at the end.
pub proof fn done_is_told_last(m: MeshView, parts: int, hulls: int, i: int)
    requires
        0 <= hulls,
        0 <= i < fitting_reports(m, parts, hulls).len(),
    ensures
        decompose::says_done(fitting_reports(m, parts, hulls)[i]) == (i == fitting_reports(m, parts, hulls).len() - 1),
{
    let steps = decompose::decomposition_steps(m, parts);
    if i < steps.len() {
        decompose::steps_are_not_done(m, parts, i);
    }
}

/// Whether `r` are the shapes that fit the convex hulls of a mesh, of which there are `n`.
pub open spec fn fits_mesh<K: SpatialMath + LinearMath + MassMath + MeshNumerics + SphereMath + ConvexMath + FitMath>(
    k: &K,
    m: MeshView,
    params: VhacdParams,
    parts: int,
    n: int,
    r: Seq<FitPrimitive>,
) -> bool {
    exists|hulls: Seq<MeshView>| #[trigger]
        decompose::is_decomposition(k, m, params, parts, hulls) && hulls.len() == n && fits_hulls(k, hulls, n, r)
}

/// Fits shapes to the convex hulls of a mesh, and tells about progress.
pub fn primitive_fit_with_progress<
    K: SpatialMath + LinearMath + MassMath + MeshNumerics + SphereMath + ConvexMath + FitMath,
    P: Progress,
>(k: &K, mesh: &MeshData, params: &VhacdParams, progress: &mut P) -> (r: Vec<FitPrimitive>)
    ensures
        exists|parts: int, n: int| #[trigger]
            fits_mesh(k, mesh@, *params, parts, n, r@) && final(progress).told() == old(progress).told()
                + fitting_reports(mesh@, parts, n),
{
    let ghost start = progress.told();
    let hulls = decompose_with_progress(k, mesh, params, progress);
    let ghost views = decompose::meshes_view(hulls@);
    let ghost parts = choose|parts: int| #[trigger]
        decompose::is_decomposition(k, mesh@, *params, parts, views) && progress.told() == start
            + decompose::decomposition_steps(mesh@, parts);
    let ghost decomposed = progress.told();
    let n: usize = hulls.len();
    let mut r: Vec<FitPrimitive> = Vec::new();
    if n == 0 {
        progress.tell(Report::Enter(PHASE_DONE));
        assert(decompose::is_decomposition(k, mesh@, *params, parts, views));
        assert(fits_mesh(k, mesh@, *params, parts, 0, r@));
        assert(progress.told() =~= start + fitting_reports(mesh@, parts, 0));
        return r;
    }
    progress.tell(Report::Phase(PHASE_BUILDING));
    let ghost building = progress.told();
    assert(building + decompose::percentages(0, n as int) =~= building);
    for i in 0..n
        invariant
            n == hulls@.len(),
            views == decompose::meshes_view(hulls@),
            fits_hulls(k, views, i as int, r@),
            progress.told() == building + decompose::percentages(i as int, n as int),
    {
        progress.tell(Report::Percent(percentage(i, n)));
        assert(progress.told() =~= building + decompose::percentages(i + 1, n as int));
        let ghost before = r@;
        assert(views[i as int].vertices == hulls@[i as int].vertices@);
        if hulls[i].vertices.len() >= 3 {
            let p = fit_primitive_to_points(k, &hulls[i].vertices);
            r.push(p);
            assert(r@.drop_last() =~= before);
            assert(fits_points(k, hulls@[i as int].vertices, r@.last()));
        }
    }
    progress.tell(Report::Percent(100));
    progress.tell(Report::Phase(PHASE_DONE));
    proof {
        assert(decompose::is_decomposition(k, mesh@, *params, parts, views));
        assert(fits_mesh(k, mesh@, *params, parts, n as int, r@));
        assert(progress.told() =~= start + fitting_reports(mesh@, parts, n as int));
    }
    r
}

/// Fits shapes to the convex hulls of a mesh.
pub fn primitive_fit<K: SpatialMath + LinearMath + MassMath + MeshNumerics + SphereMath + ConvexMath + FitMath>(
    k: &K,
    mesh: &MeshData,
    params: &VhacdParams,
) -> (r: Vec<FitPrimitive>)
    ensures
        exists|parts: int, n: int| #[trigger] fits_mesh(k, mesh@, *params, parts, n, r@),
{
    let mut nobody = Silent::new();
    primitive_fit_with_progress(k, mesh, params, &mut nobody)
}

impl MeshData {
    /// Fits shapes to the convex hulls of the mesh with the usual settings.
    pub fn decompose_primitives<
        K: SpatialMath + LinearMath + MassMath + MeshNumerics + SphereMath + ConvexMath + FitMath,
    >(&self, k: &K) -> (r: Vec<FitPrimitive>)
        ensures
            exists|parts: int, n: int| #[trigger]
                fits_mesh(
                    k,
                    self@,
                    (VhacdParams {
                        max_hulls: 16,
                        resolution: 64,
                        concavity: Real { bits: CONCAVITY },
                    }),
                    parts,
                    n,
                    r@,
                ),
    {
        primitive_fit(k, self, &VhacdParams::default())
    }

    /// Fits shapes to the convex hulls of the mesh.
    pub fn decompose_primitives_with<
        K: SpatialMath + LinearMath + MassMath + MeshNumerics + SphereMath + ConvexMath + FitMath,
    >(&self, k: &K, params: &VhacdParams) -> (r: Vec<FitPrimitive>)
        ensures
            exists|parts: int, n: int| #[trigger] fits_mesh(k, self@, *params, parts, n, r@),
    {
        primitive_fit(k, self, params)
    }
}

} // verus!
