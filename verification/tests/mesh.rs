//! Meshes on doubles: reduction, decomposition and files.

use misarta::centroidal::MassMath;
use misarta::collada;
use misarta::collada::FilePaths;
use misarta::decimate;
use misarta::decimate::DecimationMethod;
use misarta::decompose;
use misarta::decompose::VhacdParams as LibVhacdParams;
use misarta::decompose::{
    ConvexMath, DecompositionMethod, Listener, Narrator, Progress, ProgressLog, Report,
};
use misarta::manifold::FreeMotion;
use misarta::matrix::{LinearMath, Matrix};
use misarta::mesh::MeshData as LibMesh;
use misarta::number::Point3 as Pt3;
use misarta::number::Real;
use misarta::number::Vector3 as Vec3;
use misarta::numerics::Quadric as LibQuadric;
use misarta::numerics::{MeshNumerics, RealText};
use misarta::ik_solver::PowerMath;
use misarta::pose::{PoseMath, RobotMath};
use misarta::primitive;
use misarta::primitive::FitMath;
use misarta::primitive::PrimitiveKind as LibKind;
use misarta::spatial::{Inertia, LinkInertia, Motion, Placement, SpatialMath};
use misarta::sphere_tree;
use misarta::sphere_tree::{SphereMath, SphereTreeParams};
use nalgebra as na;
use nalgebra::{Point3, Vector3};
use parry3d_f64::transformation::convex_hull;
use parry3d_f64::transformation::vhacd::{VHACDParameters, VHACD};
use std::path::Path;
use std::rc::Rc;

/// Floating-point arithmetic behind the library, by nalgebra.
#[derive(Clone, Copy, Debug, Default)]
struct Floats;

/// The number with the bits of a double.
fn to_real(x: f64) -> Real {
    Real { bits: x.to_bits() }
}

/// The double with the bits of a number.
fn to_float(x: Real) -> f64 {
    f64::from_bits(x.bits)
}

/// Numbers with the bits of doubles.
fn to_reals(x: &[f64]) -> Vec<Real> {
    x.iter().map(|y| to_real(*y)).collect()
}

/// Doubles with the bits of numbers.
fn to_floats(x: &[Real]) -> Vec<f64> {
    x.iter().map(|y| to_float(*y)).collect()
}

/// A vector of the library as a vector of nalgebra.
fn na_vector(v: Vec3) -> na::Vector3<f64> {
    na::Vector3::new(to_float(v.x), to_float(v.y), to_float(v.z))
}

/// A vector of nalgebra as a vector of the library.
fn vector(v: &na::Vector3<f64>) -> Vec3 {
    Vec3 { x: to_real(v.x), y: to_real(v.y), z: to_real(v.z) }
}

/// A placement of the library as an isometry.
fn isometry(p: Placement) -> na::Isometry3<f64> {
    let q = na::Quaternion::new(to_float(p.w), to_float(p.i), to_float(p.j), to_float(p.k));
    na::Isometry3::from_parts(
        na::Translation3::from(na_vector(p.translation)),
        na::UnitQuaternion::new_unchecked(q),
    )
}

/// An isometry as a placement of the library.
fn placement(m: &na::Isometry3<f64>) -> Placement {
    let q = m.rotation.quaternion();
    Placement {
        i: to_real(q.i),
        j: to_real(q.j),
        k: to_real(q.k),
        w: to_real(q.w),
        translation: vector(&m.translation.vector),
    }
}

/// A spatial vector of the library as six doubles, angular part first.
fn six(m: Motion) -> na::Vector6<f64> {
    na::Vector6::new(
        to_float(m.angular.x),
        to_float(m.angular.y),
        to_float(m.angular.z),
        to_float(m.linear.x),
        to_float(m.linear.y),
        to_float(m.linear.z),
    )
}

/// Six doubles as a spatial vector of the library.
fn motion(v: &na::Vector6<f64>) -> Motion {
    Motion {
        angular: Vec3 { x: to_real(v[0]), y: to_real(v[1]), z: to_real(v[2]) },
        linear: Vec3 { x: to_real(v[3]), y: to_real(v[4]), z: to_real(v[5]) },
    }
}

fn parts(m: Motion) -> (na::Vector3<f64>, na::Vector3<f64>) {
    (na_vector(m.angular), na_vector(m.linear))
}

fn joined(angular: na::Vector3<f64>, linear: na::Vector3<f64>) -> Motion {
    Motion { angular: vector(&angular), linear: vector(&linear) }
}

fn na_inertia(i: &Inertia) -> na::Matrix6<f64> {
    na::Matrix6::from_iterator(i.m.iter().map(|x| to_float(*x)))
}

fn inertia(m: &na::Matrix6<f64>) -> Inertia {
    let mut r = Inertia::zero();
    for (i, x) in m.iter().enumerate() {
        r.m[i] = to_real(*x);
    }
    r
}

fn na_matrix3(m: &[Real; 9]) -> na::Matrix3<f64> {
    na::Matrix3::from_iterator(m.iter().map(|x| to_float(*x)))
}

fn matrix3(m: &na::Matrix3<f64>) -> [Real; 9] {
    let mut r = [Real::zero(); 9];
    for (i, x) in m.iter().enumerate() {
        r[i] = to_real(*x);
    }
    r
}

/// A matrix of the library as a matrix of nalgebra.
fn na_matrix(m: &Matrix) -> na::DMatrix<f64> {
    na::DMatrix::from_fn(m.rows.len(), m.cols, |r, c| to_float(m.rows[r][c]))
}

/// A matrix of nalgebra as a matrix of the library.
fn matrix(m: &na::DMatrix<f64>) -> Matrix {
    let mut r = Matrix::zeros(m.nrows(), m.ncols());
    for i in 0..m.nrows() {
        for j in 0..m.ncols() {
            r.set(i, j, to_real(m[(i, j)]));
        }
    }
    r
}

fn na_list(v: &[Real]) -> na::DVector<f64> {
    na::DVector::from_iterator(v.len(), v.iter().map(|x| to_float(*x)))
}

fn list(v: &na::DVector<f64>) -> Vec<Real> {
    v.iter().map(|x| to_real(*x)).collect()
}

fn square(d: &[Vec<Real>]) -> na::DMatrix<f64> {
    na::DMatrix::from_fn(d.len(), d.len(), |r, c| to_float(d[r][c]))
}

fn skew(v: &na::Vector3<f64>) -> na::Matrix3<f64> {
    v.cross_matrix()
}

/// The placement after moving with a velocity for unit time.
fn exp(v: &na::Vector6<f64>) -> na::Isometry3<f64> {
    let w = na::Vector3::new(v[0], v[1], v[2]);
    let u = na::Vector3::new(v[3], v[4], v[5]);
    let theta = w.norm();
    let wx = skew(&w);
    let (a, b) = if theta < 1e-8 {
        (0.5 - theta * theta / 24.0, 1.0 / 6.0 - theta * theta / 120.0)
    } else {
        ((1.0 - theta.cos()) / (theta * theta), (theta - theta.sin()) / (theta * theta * theta))
    };
    let jac = na::Matrix3::identity() + wx * a + wx * wx * b;
    na::Isometry3::from_parts(
        na::Translation3::from(jac * u),
        na::UnitQuaternion::from_scaled_axis(w),
    )
}

/// The velocity that leads to a placement in unit time.
fn logarithm(m: &na::Isometry3<f64>) -> na::Vector6<f64> {
    let w = m.rotation.scaled_axis();
    let theta = w.norm();
    let wx = skew(&w);
    let c = if theta < 1e-4 {
        1.0 / 12.0 + theta * theta / 720.0
    } else {
        1.0 / (theta * theta) - (1.0 + theta.cos()) / (2.0 * theta * theta.sin())
    };
    let u = (na::Matrix3::identity() - wx * 0.5 + wx * wx * c) * m.translation.vector;
    na::Vector6::new(w.x, w.y, w.z, u.x, u.y, u.z)
}

fn free_isometry(q: &[Real; 7]) -> na::Isometry3<f64> {
    let x = to_floats(q);
    na::Isometry3::from_parts(
        na::Translation3::new(x[0], x[1], x[2]),
        na::UnitQuaternion::from_quaternion(na::Quaternion::new(x[6], x[3], x[4], x[5])),
    )
}

fn free_numbers(m: &na::Isometry3<f64>) -> [Real; 7] {
    let t = m.translation.vector;
    let q = m.rotation.quaternion();
    [to_real(t.x), to_real(t.y), to_real(t.z), to_real(q.i), to_real(q.j), to_real(q.k), to_real(q.w)]
}

impl SpatialMath for Floats {
    fn sum(&self, a: Real, b: Real) -> Real {
        to_real(to_float(a) + to_float(b))
    }

    fn difference(&self, a: Real, b: Real) -> Real {
        to_real(to_float(a) - to_float(b))
    }

    fn product(&self, a: Real, b: Real) -> Real {
        to_real(to_float(a) * to_float(b))
    }

    fn quotient(&self, a: Real, b: Real) -> Real {
        to_real(to_float(a) / to_float(b))
    }

    fn compose(&self, a: Placement, b: Placement) -> Placement {
        placement(&(isometry(a) * isometry(b)))
    }

    fn rotation(&self, axis: Vec3, angle: Real) -> Placement {
        let axis = na::Unit::new_normalize(na_vector(axis));
        placement(&na::Isometry3::from_parts(
            na::Translation3::identity(),
            na::UnitQuaternion::from_axis_angle(&axis, to_float(angle)),
        ))
    }

    fn translation(&self, axis: Vec3, distance: Real) -> Placement {
        placement(&na::Isometry3::from_parts(
            na::Translation3::from(na_vector(axis) * to_float(distance)),
            na::UnitQuaternion::identity(),
        ))
    }

    fn free(&self, translation: Vec3, i: Real, j: Real, k: Real, w: Real) -> Placement {
        let q = na::Quaternion::new(to_float(w), to_float(i), to_float(j), to_float(k));
        placement(&na::Isometry3::from_parts(
            na::Translation3::from(na_vector(translation)),
            na::UnitQuaternion::from_quaternion(q),
        ))
    }

    fn motion_sum(&self, a: Motion, b: Motion) -> Motion {
        motion(&(six(a) + six(b)))
    }

    fn motion_difference(&self, a: Motion, b: Motion) -> Motion {
        motion(&(six(a) - six(b)))
    }

    fn motion_add_scaled(&self, a: Motion, s: Motion, x: Real) -> Motion {
        motion(&(six(a) + six(s) * to_float(x)))
    }

    fn motion_quotient(&self, a: Motion, x: Real) -> Motion {
        motion(&(six(a) / to_float(x)))
    }

    fn dot3(&self, a: Vec3, b: Vec3) -> Real {
        to_real(na_vector(a).dot(&na_vector(b)))
    }

    fn motion_to_child(&self, x: Placement, v: Motion) -> Motion {
        let m = isometry(x);
        let rt = m.rotation.to_rotation_matrix().into_inner().transpose();
        let p = m.translation.vector;
        let (w, u) = parts(v);
        joined(rt * w, rt * (u - p.cross(&w)))
    }

    fn force_to_parent(&self, x: Placement, f: Motion) -> Motion {
        let m = isometry(x);
        let r = m.rotation.to_rotation_matrix().into_inner();
        let p = m.translation.vector;
        let (n, f) = parts(f);
        let rf = r * f;
        joined(r * n + p.cross(&rf), rf)
    }

    fn motion_cross(&self, v: Motion, m: Motion) -> Motion {
        let (w, u) = parts(v);
        let (a, b) = parts(m);
        joined(w.cross(&a), u.cross(&a) + w.cross(&b))
    }

    fn force_cross(&self, v: Motion, f: Motion) -> Motion {
        let (w, u) = parts(v);
        let (n, f) = parts(f);
        joined(w.cross(&n) + u.cross(&f), w.cross(&f))
    }

    fn dot(&self, a: Motion, b: Motion) -> Real {
        to_real(six(a).dot(&six(b)))
    }

    fn body_inertia(&self, link: LinkInertia) -> Inertia {
        let mass = to_float(link.mass);
        let cx = skew(&na_vector(link.center_of_mass));
        let rot = na_matrix3(&link.rotational_inertia) + cx * cx.transpose() * mass;
        let mut m = na::Matrix6::zeros();
        m.fixed_view_mut::<3, 3>(0, 0).copy_from(&rot);
        m.fixed_view_mut::<3, 3>(0, 3).copy_from(&(cx * mass));
        m.fixed_view_mut::<3, 3>(3, 0).copy_from(&(cx.transpose() * mass));
        m.fixed_view_mut::<3, 3>(3, 3).copy_from(&(na::Matrix3::identity() * mass));
        inertia(&m)
    }

    fn inertia_sum(&self, a: Inertia, b: Inertia) -> Inertia {
        inertia(&(na_inertia(&a) + na_inertia(&b)))
    }

    fn inertia_to_parent(&self, x: Placement, i: Inertia) -> Inertia {
        let m = isometry(x);
        let rt = m.rotation.to_rotation_matrix().into_inner().transpose();
        let px = skew(&m.translation.vector);
        let mut inv = na::Matrix6::zeros();
        inv.fixed_view_mut::<3, 3>(0, 0).copy_from(&rt);
        inv.fixed_view_mut::<3, 3>(3, 0).copy_from(&(-rt * px));
        inv.fixed_view_mut::<3, 3>(3, 3).copy_from(&rt);
        inertia(&(inv.transpose() * na_inertia(&i) * inv))
    }

    fn inertia_times(&self, i: Inertia, m: Motion) -> Motion {
        motion(&(na_inertia(&i) * six(m)))
    }

    fn solve(&self, d: &Vec<Vec<Real>>, e: &Vec<Real>) -> [Real; 6] {
        let x = square(d).lu().solve(&na_list(e)).expect("joint inertia is singular");
        let mut r = [Real::zero(); 6];
        for (i, y) in x.iter().enumerate() {
            r[i] = to_real(*y);
        }
        r
    }

    fn jacobian_column(&self, frame: Placement, s: Motion, target: Vec3) -> Motion {
        let m = isometry(frame);
        let (w, u) = parts(s);
        let w = m.rotation * w;
        let u = m.rotation * u;
        let lever = na_vector(target) - m.translation.vector;
        joined(w, u + w.cross(&lever))
    }
}

impl LinearMath for Floats {
    fn inner(&self, a: &Vec<Real>, b: &Vec<Real>) -> Real {
        to_real(a.iter().zip(b).map(|(x, y)| to_float(*x) * to_float(*y)).sum())
    }

    fn length(&self, a: &Vec<Real>) -> Real {
        to_real(na_list(a).norm())
    }

    fn root(&self, x: Real) -> Real {
        to_real(to_float(x).sqrt())
    }

    fn determinant(&self, a: &Matrix) -> Real {
        to_real(na_matrix(a).determinant())
    }

    fn solve_system(&self, a: &Matrix, b: &Vec<Real>) -> Option<Vec<Real>> {
        let (a, b) = (na_matrix(a), na_list(b));
        let lu = a.clone().lu();
        let x = lu.solve(&b)?;
        // What is left of the right-hand side is solved for once more.
        let rest = lu.solve(&(b - a * &x))?;
        Some(list(&(x + rest)))
    }
}

impl MassMath for Floats {
    fn world_point(&self, x: Placement, p: Vec3) -> Vec3 {
        let m = isometry(x);
        vector(&(m.rotation * na_vector(p) + m.translation.vector))
    }

    fn add_weighted(&self, p: Vec3, w: Real, x: Vec3) -> Vec3 {
        vector(&(na_vector(p) + na_vector(x) * to_float(w)))
    }

    fn offset(&self, a: Vec3, b: Vec3) -> Vec3 {
        vector(&(na_vector(a) - na_vector(b)))
    }

    fn divide(&self, p: Vec3, w: Real) -> Vec3 {
        vector(&(na_vector(p) / to_float(w)))
    }

    fn point_velocity(&self, m: Motion, r: Vec3) -> Vec3 {
        let (w, u) = parts(m);
        vector(&(u + w.cross(&na_vector(r))))
    }

    fn add_angular(
        &self,
        h: Vec3,
        x: Placement,
        link: LinkInertia,
        m: Motion,
        d: Vec3,
        v: Vec3,
    ) -> Vec3 {
        let r = isometry(x).rotation.to_rotation_matrix().into_inner();
        let i = r * na_matrix3(&link.rotational_inertia) * r.transpose();
        let own = i * na_vector(m.angular);
        let orbital = na_vector(d).cross(&na_vector(v)) * to_float(link.mass);
        vector(&(na_vector(h) + own + orbital))
    }

    fn add_rotational(&self, i: [Real; 9], x: Placement, link: LinkInertia, d: Vec3) -> [Real; 9] {
        let r = isometry(x).rotation.to_rotation_matrix().into_inner();
        let own = r * na_matrix3(&link.rotational_inertia) * r.transpose();
        let d = na_vector(d);
        let steiner = (na::Matrix3::identity() * d.norm_squared() - d * d.transpose()) * to_float(link.mass);
        matrix3(&(na_matrix3(&i) + own + steiner))
    }
}

impl PoseMath for Floats {
    fn inverse(&self, x: Placement) -> Placement {
        placement(&isometry(x).inverse())
    }

    fn log(&self, x: Placement) -> Motion {
        motion(&logarithm(&isometry(x)))
    }

    fn rotate(&self, x: Placement, v: Vec3) -> Vec3 {
        vector(&(isometry(x).rotation * na_vector(v)))
    }

    fn rotate_back(&self, x: Placement, v: Vec3) -> Vec3 {
        vector(&(isometry(x).rotation.inverse() * na_vector(v)))
    }

    fn orientation_error(&self, current: Placement, target: Placement) -> Vec3 {
        let e = isometry(target).rotation * isometry(current).rotation.inverse();
        vector(&e.scaled_axis())
    }
}

impl FreeMotion for Floats {
    fn integrate_free(&self, q: [Real; 7], v: [Real; 6], dt: Real) -> [Real; 7] {
        let step = na::Vector6::from_iterator(v.iter().map(|x| to_float(*x) * to_float(dt)));
        free_numbers(&(free_isometry(&q) * exp(&step)))
    }

    fn normalize_free(&self, q: [Real; 7]) -> [Real; 7] {
        free_numbers(&free_isometry(&q))
    }

    fn difference_free(&self, from: [Real; 7], to: [Real; 7]) -> [Real; 6] {
        let v = logarithm(&(free_isometry(&from).inverse() * free_isometry(&to)));
        [to_real(v[0]), to_real(v[1]), to_real(v[2]), to_real(v[3]), to_real(v[4]), to_real(v[5])]
    }
}

impl RobotMath for Floats {}

impl PowerMath for Floats {
    fn power(&self, x: Real, n: usize) -> Real {
        to_real(to_float(x).powi(n as i32))
    }
}

/// A point of the library as a point of nalgebra.
fn na_point(p: Pt3) -> na::Point3<f64> {
    na::Point3::new(to_float(p.x), to_float(p.y), to_float(p.z))
}

/// A point of nalgebra as a point of the library.
fn point(p: &na::Point3<f64>) -> Pt3 {
    Pt3 { x: to_real(p.x), y: to_real(p.y), z: to_real(p.z) }
}

fn na_points(points: &[Pt3]) -> Vec<na::Point3<f64>> {
    points.iter().map(|p| na_point(*p)).collect()
}

fn points(points: &[na::Point3<f64>]) -> Vec<Pt3> {
    points.iter().map(point).collect()
}

impl MeshNumerics for Floats {
    fn scaled_count(&self, n: usize, ratio: Real) -> usize {
        ((n as f64) * to_float(ratio)).ceil() as usize
    }

    fn edge_cross(&self, p0: Pt3, p1: Pt3, p2: Pt3) -> Vec3 {
        let (a, b, c) = (na_point(p0), na_point(p1), na_point(p2));
        vector(&(b - a).cross(&(c - a)))
    }

    fn norm(&self, v: Vec3) -> Real {
        to_real(na_vector(v).norm())
    }

    fn divided(&self, v: Vec3, by: Real) -> Vec3 {
        vector(&(na_vector(v) / to_float(by)))
    }

    fn distance(&self, a: Pt3, b: Pt3) -> Real {
        to_real((na_point(a) - na_point(b)).norm())
    }

    fn midpoint(&self, a: Pt3, b: Pt3) -> Pt3 {
        point(&na::Point3::from((na_point(a).coords + na_point(b).coords) * 0.5))
    }

    fn tripled(&self, x: Real) -> Real {
        to_real(to_float(x) * 3.0)
    }

    fn zero_quadric(&self) -> LibQuadric {
        LibQuadric { q: [Real::zero(); 10] }
    }

    fn plane_quadric(&self, n: Vec3, p: Pt3, cross_length: Real) -> LibQuadric {
        let n = na_vector(n);
        let (a, b, c) = (n.x, n.y, n.z);
        let d = -n.dot(&na_point(p).coords);
        let area = to_float(cross_length) * 0.5;
        let q = [a * a, a * b, a * c, a * d, b * b, b * c, b * d, c * c, c * d, d * d];
        LibQuadric { q: q.map(|x| to_real(x * area)) }
    }

    fn quadric_sum(&self, a: LibQuadric, b: LibQuadric) -> LibQuadric {
        let mut r = a;
        for i in 0..10 {
            r.q[i] = to_real(to_float(a.q[i]) + to_float(b.q[i]));
        }
        r
    }

    fn quadric_error(&self, q: LibQuadric, p: Pt3) -> Real {
        let q = q.q.map(to_float);
        let (x, y, z) = (to_float(p.x), to_float(p.y), to_float(p.z));
        to_real(
            q[0] * x * x
                + 2.0 * q[1] * x * y
                + 2.0 * q[2] * x * z
                + 2.0 * q[3] * x
                + q[4] * y * y
                + 2.0 * q[5] * y * z
                + 2.0 * q[6] * y
                + q[7] * z * z
                + 2.0 * q[8] * z
                + q[9],
        )
    }

    fn quadric_minimum(&self, q: LibQuadric) -> Option<Pt3> {
        let q = q.q.map(to_float);
        let m = na::Matrix4::new(
            q[0], q[1], q[2], q[3], q[1], q[4], q[5], q[6], q[2], q[5], q[7], q[8], 0.0, 0.0, 0.0, 1.0,
        );
        let x = m.try_inverse()? * na::Vector4::new(0.0, 0.0, 0.0, 1.0);
        if x.w.abs() > 1e-12 {
            Some(point(&na::Point3::new(x.x / x.w, x.y / x.w, x.z / x.w)))
        } else {
            None
        }
    }

    fn largest_extent(&self, lo: Pt3, hi: Pt3) -> Real {
        let e = na_point(hi) - na_point(lo);
        to_real(e.x.max(e.y).max(e.z))
    }

    fn cells_per_axis(&self, n: usize, ratio: Real) -> usize {
        let base = (n as f64).cbrt().ceil().max(2.0);
        (base * to_float(ratio).powf(0.33)).ceil().max(2.0) as usize
    }

    fn grid_cell(&self, p: Pt3, lo: Pt3, extent: Real, cells: usize) -> (i64, i64, i64) {
        let per_cell = 1.0 / (to_float(extent) / cells as f64);
        let d = na_point(p) - na_point(lo);
        (
            (d.x * per_cell).floor() as i64,
            (d.y * per_cell).floor() as i64,
            (d.z * per_cell).floor() as i64,
        )
    }

    fn mean(&self, points: &Vec<Pt3>) -> Pt3 {
        let sum = points.iter().fold(na::Vector3::zeros(), |a, p| a + na_point(*p).coords);
        point(&na::Point3::from(sum / points.len() as f64))
    }
}

impl RealText for Floats {
    fn format(&self, x: Real) -> String {
        format!("{}", to_float(x))
    }

    fn parse(&self, s: &str) -> Option<Real> {
        s.parse::<f64>().ok().map(to_real)
    }
}

impl FilePaths for Floats {
    fn is_relative(&self, path: &str) -> bool {
        Path::new(path).is_relative()
    }

    fn join(&self, dir: &str, path: &str) -> String {
        Path::new(dir).join(path).to_string_lossy().into_owned()
    }
}

/// A part of a decomposed mesh, by its place.
struct HullPart {
    all: Rc<VHACD>,
    at: usize,
}

impl ConvexMath for Floats {
    type Part = HullPart;

    fn decompose(&self, points: &Vec<Pt3>, indices: &Vec<[u32; 3]>, params: LibVhacdParams) -> Vec<HullPart> {
        let settings = VHACDParameters {
            resolution: params.resolution,
            concavity: to_float(params.concavity),
            max_convex_hulls: params.max_hulls,
            ..Default::default()
        };
        let all = Rc::new(VHACD::decompose(&settings, &na_points(points), indices, true));
        (0..all.voxel_parts().len()).map(|at| HullPart { all: all.clone(), at }).collect()
    }

    fn part_hull(
        &self,
        part: &HullPart,
        vertices: &Vec<Pt3>,
        indices: &Vec<[u32; 3]>,
    ) -> (Vec<Pt3>, Vec<[u32; 3]>) {
        let (v, t) = part.all.voxel_parts()[part.at].compute_exact_convex_hull(&na_points(vertices), indices);
        (points(&v), t)
    }

    fn convex_hull(&self, vertices: &Vec<Pt3>) -> (Vec<Pt3>, Vec<[u32; 3]>) {
        let (v, t) = convex_hull(&na_points(vertices));
        (points(&v), t)
    }
}

impl SphereMath for Floats {
    fn triangle_center(&self, a: Pt3, b: Pt3, c: Pt3) -> Pt3 {
        let sum = na_point(a).coords + na_point(b).coords + na_point(c).coords;
        point(&na::Point3::from(sum / 3.0))
    }

    fn covariance(&self, points: &Vec<Pt3>, mean: Pt3) -> [Real; 9] {
        let mut m = na::Matrix3::zeros();
        for p in points {
            let d = na_point(*p) - na_point(mean);
            m += d * d.transpose();
        }
        matrix3(&(m / points.len() as f64))
    }

    fn diagonal(&self) -> Vec3 {
        vector(&na::Vector3::new(1.0, 1.0, 1.0).normalize())
    }

    fn matrix_times(&self, m: [Real; 9], v: Vec3) -> Vec3 {
        vector(&(na_matrix3(&m) * na_vector(v)))
    }

    fn position_along(&self, axis: Vec3, p: Pt3) -> Real {
        to_real(na_vector(axis).dot(&na_point(p).coords))
    }

    fn distance_squared(&self, a: Pt3, b: Pt3) -> Real {
        to_real((na_point(a) - na_point(b)).norm_squared())
    }

    fn towards(&self, from: Pt3, to: Pt3, distance: Real) -> Pt3 {
        let (a, b) = (na_point(from), na_point(to));
        point(&(a + (b - a).normalize() * to_float(distance)))
    }

    fn budget_share(&self, budget: usize, part: usize, whole: usize) -> usize {
        ((budget as f64) * (part as f64) / (whole as f64)).round().max(1.0) as usize
    }
}

impl FitMath for Floats {
    fn eigen(&self, m: [Real; 9]) -> ([Real; 3], [Vec3; 3]) {
        let e = na_matrix3(&m).symmetric_eigen();
        let axis = |i: usize| vector(&e.eigenvectors.column(i).into_owned());
        let value = |i: usize| to_real(e.eigenvalues[i]);
        ([value(0), value(1), value(2)], [axis(0), axis(1), axis(2)])
    }

    fn determinant3(&self, a: Vec3, b: Vec3, c: Vec3) -> Real {
        let m = na::Matrix3::from_columns(&[na_vector(a), na_vector(b), na_vector(c)]);
        to_real(m.determinant())
    }

    fn rotation_of(&self, a: Vec3, b: Vec3, c: Vec3) -> Placement {
        let m = na::Matrix3::from_columns(&[na_vector(a), na_vector(b), na_vector(c)]);
        let r = na::UnitQuaternion::from_rotation_matrix(&na::Rotation3::from_matrix_unchecked(m));
        placement(&na::Isometry3::from_parts(na::Translation3::identity(), r))
    }

    fn local_point(&self, rotation: Placement, center: Pt3, p: Pt3) -> Vec3 {
        let r = isometry(rotation).rotation;
        vector(&(r.inverse() * (na_point(p) - na_point(center))))
    }

    fn placed_point(&self, rotation: Placement, center: Pt3, v: Vec3) -> Pt3 {
        let r = isometry(rotation).rotation;
        point(&(na_point(center) + r * na_vector(v)))
    }

    fn triple(&self, a: Pt3, b: Pt3, c: Pt3) -> Real {
        let (a, b, c) = (na_point(a).coords, na_point(b).coords, na_point(c).coords);
        to_real(a.dot(&b.cross(&c)))
    }
}

// ── The same functions on doubles ──

fn near(a: f64, b: f64, epsilon: f64) {
    let d = (a - b).abs();
    assert!(a == b || d <= epsilon || d <= f64::EPSILON * a.abs().max(b.abs()), "{a} is not near {b}");
}

#[derive(Clone, Debug)]
struct Material {
    name: String,
    diffuse: [f64; 4],
    specular: [f64; 4],
    shininess: f64,
    texture_diffuse: Option<String>,
}

#[derive(Clone, Debug)]
struct SubMesh {
    tri_start: usize,
    tri_count: usize,
    material_index: Option<usize>,
}

#[derive(Clone, Debug)]
struct MeshData {
    vertices: Vec<Point3<f64>>,
    indices: Vec<[u32; 3]>,
    face_normals: Vec<Vector3<f64>>,
    vertex_normals: Vec<Vector3<f64>>,
    texcoords: Vec<na::Point2<f64>>,
    materials: Vec<Material>,
    submeshes: Vec<SubMesh>,
}

fn mesh_data(m: &LibMesh) -> MeshData {
    MeshData {
        vertices: na_points(&m.vertices),
        indices: m.indices.clone(),
        face_normals: m.face_normals.iter().map(|v| na_vector(*v)).collect(),
        vertex_normals: m.vertex_normals.iter().map(|v| na_vector(*v)).collect(),
        texcoords: m.texcoords.iter().map(|p| na::Point2::new(to_float(p.x), to_float(p.y))).collect(),
        materials: m
            .materials
            .iter()
            .map(|x| Material {
                name: x.name.clone(),
                diffuse: x.diffuse.map(to_float),
                specular: x.specular.map(to_float),
                shininess: to_float(x.shininess),
                texture_diffuse: x.texture_diffuse.clone(),
            })
            .collect(),
        submeshes: m
            .submeshes
            .iter()
            .map(|s| SubMesh {
                tri_start: s.tri_start,
                tri_count: s.tri_count,
                material_index: s.material_index,
            })
            .collect(),
    }
}

impl MeshData {
    fn lib(&self) -> LibMesh {
        assert!(self.materials.is_empty() && self.submeshes.is_empty() && self.texcoords.is_empty());
        LibMesh {
            vertices: points(&self.vertices),
            indices: self.indices.clone(),
            face_normals: self.face_normals.iter().map(vector).collect(),
            vertex_normals: self.vertex_normals.iter().map(vector).collect(),
            texcoords: Vec::new(),
            materials: Vec::new(),
            submeshes: Vec::new(),
        }
    }

    fn num_vertices(&self) -> usize {
        self.vertices.len()
    }

    fn num_triangles(&self) -> usize {
        self.indices.len()
    }

    fn num_materials(&self) -> usize {
        self.materials.len()
    }

    fn num_submeshes(&self) -> usize {
        self.submeshes.len()
    }

    fn has_texcoords(&self) -> bool {
        !self.texcoords.is_empty()
    }

    fn material_for_triangle(&self, i: usize) -> Option<&Material> {
        let s = self.submeshes.iter().find(|s| s.tri_start <= i && i < s.tri_start + s.tri_count)?;
        self.materials.get(s.material_index?)
    }

    fn to_flat_vertices_f32(&self) -> Vec<f32> {
        let mut flat = Vec::new();
        for (t, n) in self.indices.iter().zip(&self.face_normals) {
            for v in t {
                let p = self.vertices[*v as usize];
                flat.extend([p.x as f32, p.y as f32, p.z as f32]);
                flat.extend([n.x as f32, n.y as f32, n.z as f32]);
            }
        }
        flat
    }

    fn decimate(&self, ratio: f64) -> MeshData {
        mesh_data(&self.lib().decimate(&Floats, to_real(ratio)))
    }

    fn decimate_with(&self, ratio: f64, method: DecimationMethod) -> MeshData {
        mesh_data(&self.lib().decimate_with(&Floats, to_real(ratio), method))
    }

    fn decompose_vhacd(&self) -> Vec<MeshData> {
        self.lib().decompose_vhacd(&Floats).iter().map(mesh_data).collect()
    }

    fn decompose_spheres(&self) -> Vec<FitSphere> {
        self.lib().decompose_spheres(&Floats).iter().map(fit_sphere).collect()
    }

    fn decompose_primitives(&self) -> Vec<FitPrimitive> {
        self.lib().decompose_primitives(&Floats).iter().map(fit_primitive).collect()
    }
}

struct Quadric {
    inner: LibQuadric,
}

impl Quadric {
    fn from_plane(a: f64, b: f64, c: f64, d: f64) -> Self {
        let n = Vector3::new(a, b, c);
        let p = Point3::from(n * -d);
        Quadric { inner: Floats.plane_quadric(vector(&n), point(&p), to_real(2.0)) }
    }

    fn error(&self, x: f64, y: f64, z: f64) -> f64 {
        to_float(Floats.quadric_error(self.inner, point(&Point3::new(x, y, z))))
    }
}

#[derive(Clone, Copy, Debug)]
struct VhacdParams {
    max_hulls: u32,
    resolution: u32,
    concavity: f64,
}

impl VhacdParams {
    fn lib(&self) -> LibVhacdParams {
        LibVhacdParams {
            max_hulls: self.max_hulls,
            resolution: self.resolution,
            concavity: to_real(self.concavity),
        }
    }
}

impl Default for VhacdParams {
    fn default() -> Self {
        let p = LibVhacdParams::default();
        VhacdParams {
            max_hulls: p.max_hulls,
            resolution: p.resolution,
            concavity: to_float(p.concavity),
        }
    }
}

fn vhacd(mesh: &MeshData, params: &VhacdParams) -> Vec<MeshData> {
    decompose::vhacd(&Floats, &mesh.lib(), &params.lib()).iter().map(mesh_data).collect()
}

struct FitSphere {
    center: Point3<f64>,
    radius: f64,
}

fn fit_sphere(s: &sphere_tree::FitSphere) -> FitSphere {
    FitSphere { center: na_point(s.center), radius: to_float(s.radius) }
}

fn sphere_tree(mesh: &MeshData, params: &SphereTreeParams) -> Vec<FitSphere> {
    sphere_tree::sphere_tree(&Floats, &mesh.lib(), params).iter().map(fit_sphere).collect()
}

fn bounding_sphere(p: &[Point3<f64>]) -> FitSphere {
    fit_sphere(&sphere_tree::bounding_sphere(&Floats, &points(p)))
}

#[derive(Clone, Debug)]
enum PrimitiveKind {
    Box { hx: f64, hy: f64, hz: f64 },
    Cylinder { radius: f64, half_length: f64 },
    Sphere { radius: f64 },
}

impl PrimitiveKind {
    fn volume(&self) -> f64 {
        let k = match self {
            PrimitiveKind::Box { hx, hy, hz } => {
                LibKind::Box { hx: to_real(*hx), hy: to_real(*hy), hz: to_real(*hz) }
            }
            PrimitiveKind::Cylinder { radius, half_length } => {
                LibKind::Cylinder { radius: to_real(*radius), half_length: to_real(*half_length) }
            }
            PrimitiveKind::Sphere { radius } => LibKind::Sphere { radius: to_real(*radius) },
        };
        to_float(k.volume(&Floats))
    }
}

struct FitPrimitive {
    kind: PrimitiveKind,
    center: Point3<f64>,
    rotation: na::UnitQuaternion<f64>,
}

fn fit_primitive(p: &primitive::FitPrimitive) -> FitPrimitive {
    let kind = match p.kind {
        LibKind::Box { hx, hy, hz } => {
            PrimitiveKind::Box { hx: to_float(hx), hy: to_float(hy), hz: to_float(hz) }
        }
        LibKind::Cylinder { radius, half_length } => {
            PrimitiveKind::Cylinder { radius: to_float(radius), half_length: to_float(half_length) }
        }
        LibKind::Sphere { radius } => PrimitiveKind::Sphere { radius: to_float(radius) },
    };
    FitPrimitive { kind, center: na_point(p.center), rotation: isometry(p.rotation).rotation }
}

fn fit_primitive_to_points(p: &[Point3<f64>]) -> FitPrimitive {
    fit_primitive(&primitive::fit_primitive_to_points(&Floats, &points(p)))
}

fn primitive_fit(mesh: &MeshData, params: &VhacdParams) -> Vec<FitPrimitive> {
    primitive::primitive_fit(&Floats, &mesh.lib(), &params.lib()).iter().map(fit_primitive).collect()
}

struct Document {
    mesh: MeshData,
    inner: LibMesh,
}

impl std::ops::Deref for Document {
    type Target = MeshData;

    fn deref(&self) -> &MeshData {
        &self.mesh
    }
}

fn load_dae_string(xml: &str, dir: &Path) -> Result<Document, String> {
    let inner = collada::load_dae_string(&Floats, xml, &dir.to_string_lossy())?;
    Ok(Document { mesh: mesh_data(&inner), inner })
}

fn write_dae_string(d: &Document) -> String {
    collada::write_dae_string(&Floats, &d.inner)
}


// ── decimate ──

/// Helper: create a simple quad (2 triangles, 4 vertices).
fn decimate_make_quad() -> MeshData {
    let vertices = vec![
        Point3::new(0.0, 0.0, 0.0),
        Point3::new(1.0, 0.0, 0.0),
        Point3::new(1.0, 1.0, 0.0),
        Point3::new(0.0, 1.0, 0.0),
    ];
    let indices = vec![[0, 1, 2], [0, 2, 3]];
    let face_normals = vec![Vector3::z(), Vector3::z()];
    MeshData {
        vertices,
        indices,
        face_normals,
        vertex_normals: Vec::new(),
        texcoords: Vec::new(),
        materials: Vec::new(),
        submeshes: Vec::new(),
    }
}

/// Helper: create a subdivided grid mesh with known triangle count.
fn decimate_make_grid(n: usize) -> MeshData {
    let mut vertices = Vec::new();
    for j in 0..=n {
        for i in 0..=n {
            vertices.push(Point3::new(i as f64, j as f64, 0.0));
        }
    }
    let mut indices = Vec::new();
    for j in 0..n {
        for i in 0..n {
            let v00 = (j * (n + 1) + i) as u32;
            let v10 = v00 + 1;
            let v01 = v00 + (n + 1) as u32;
            let v11 = v01 + 1;
            indices.push([v00, v10, v11]);
            indices.push([v00, v11, v01]);
        }
    }
    let face_normals = vec![Vector3::z(); indices.len()];
    MeshData {
        vertices,
        indices,
        face_normals,
        vertex_normals: Vec::new(),
        texcoords: Vec::new(),
        materials: Vec::new(),
        submeshes: Vec::new(),
    }
}

#[test]
fn decimate_ratio_1_returns_clone() {
    let mesh = decimate_make_quad();
    let result = mesh.decimate(1.0);
    assert_eq!(result.num_triangles(), 2);
    assert_eq!(result.num_vertices(), 4);
}

#[test]
fn decimate_too_few_triangles_returns_clone() {
    let mesh = decimate_make_quad();
    let result = mesh.decimate(0.1);
    // With only 2 triangles (≤ 4), should return clone
    assert_eq!(result.num_triangles(), 2);
}

#[test]
fn decimate_grid_reduces_triangle_count() {
    let mesh = decimate_make_grid(10); // 200 triangles
    assert_eq!(mesh.num_triangles(), 200);

    let reduced = mesh.decimate(0.5); // target ~100
    assert!(
        reduced.num_triangles() < 200,
        "Should reduce: got {} tris",
        reduced.num_triangles()
    );
    assert!(
        reduced.num_triangles() > 0,
        "Should have at least some triangles"
    );
}

#[test]
fn decimate_grid_aggressive() {
    let mesh = decimate_make_grid(20); // 800 triangles
    assert_eq!(mesh.num_triangles(), 800);

    let reduced = mesh.decimate(0.1); // target ~80
    assert!(
        reduced.num_triangles() < 200,
        "Aggressive reduction should give < 200 tris, got {}",
        reduced.num_triangles()
    );
}

#[test]
fn decimate_preserves_manifold() {
    let mesh = decimate_make_grid(10);
    let reduced = mesh.decimate(0.3);

    // All indices should reference valid vertices
    for tri in &reduced.indices {
        for &vi in tri {
            assert!(
                (vi as usize) < reduced.vertices.len(),
                "Invalid vertex index {} (max {})",
                vi,
                reduced.vertices.len()
            );
        }
    }
    // No degenerate triangles
    for tri in &reduced.indices {
        assert_ne!(tri[0], tri[1]);
        assert_ne!(tri[1], tri[2]);
        assert_ne!(tri[0], tri[2]);
    }
}

#[test]
fn decimate_face_normals_count() {
    let mesh = decimate_make_grid(10);
    let reduced = mesh.decimate(0.5);
    assert_eq!(
        reduced.face_normals.len(),
        reduced.indices.len(),
        "Face normals count must equal triangle count"
    );
}

#[test]
fn decimate_flat_vertices_roundtrip() {
    let mesh = decimate_make_grid(10);
    let reduced = mesh.decimate(0.5);
    let flat = reduced.to_flat_vertices_f32();
    assert_eq!(flat.len(), reduced.num_triangles() * 18);
}

#[test]
fn quadric_plane_error() {
    // Plane z = 0 → normal = (0,0,1), d = 0
    let q = Quadric::from_plane(0.0, 0.0, 1.0, 0.0);
    // Point on plane: error should be 0
    near(q.error(1.0, 2.0, 0.0), 0.0, 1e-10);
    // Point off plane by 1 unit: error should be 1
    near(q.error(0.0, 0.0, 1.0), 1.0, 1e-10);
}

// ── Edge Length tests ──

#[test]
fn edge_length_reduces_grid() {
    let mesh = decimate_make_grid(10); // 200 triangles
    let reduced = mesh.decimate_with(0.5, DecimationMethod::EdgeLength);
    assert!(
        reduced.num_triangles() < 200,
        "Edge length should reduce: got {} tris",
        reduced.num_triangles()
    );
    assert!(reduced.num_triangles() > 0);
}

#[test]
fn edge_length_preserves_manifold() {
    let mesh = decimate_make_grid(10);
    let reduced = mesh.decimate_with(0.3, DecimationMethod::EdgeLength);
    for tri in &reduced.indices {
        for &vi in tri {
            assert!((vi as usize) < reduced.vertices.len());
        }
        assert_ne!(tri[0], tri[1]);
        assert_ne!(tri[1], tri[2]);
        assert_ne!(tri[0], tri[2]);
    }
    assert_eq!(reduced.face_normals.len(), reduced.indices.len());
}

#[test]
fn edge_length_ratio_1_returns_clone() {
    let mesh = decimate_make_grid(10);
    let result = mesh.decimate_with(1.0, DecimationMethod::EdgeLength);
    assert_eq!(result.num_triangles(), 200);
}

// ── Vertex Clustering tests ──

#[test]
fn vertex_clustering_reduces_grid() {
    let mesh = decimate_make_grid(10); // 200 triangles
    let reduced = mesh.decimate_with(0.5, DecimationMethod::VertexClustering);
    assert!(
        reduced.num_triangles() < 200,
        "Vertex clustering should reduce: got {} tris",
        reduced.num_triangles()
    );
    assert!(reduced.num_triangles() > 0);
}

#[test]
fn vertex_clustering_preserves_valid_indices() {
    let mesh = decimate_make_grid(10);
    let reduced = mesh.decimate_with(0.3, DecimationMethod::VertexClustering);
    for tri in &reduced.indices {
        for &vi in tri {
            assert!((vi as usize) < reduced.vertices.len());
        }
        assert_ne!(tri[0], tri[1]);
        assert_ne!(tri[1], tri[2]);
        assert_ne!(tri[0], tri[2]);
    }
    assert_eq!(reduced.face_normals.len(), reduced.indices.len());
}

#[test]
fn vertex_clustering_ratio_1_returns_clone() {
    let mesh = decimate_make_grid(10);
    let result = mesh.decimate_with(1.0, DecimationMethod::VertexClustering);
    assert_eq!(result.num_triangles(), 200);
}

#[test]
fn vertex_clustering_aggressive() {
    let mesh = decimate_make_grid(20); // 800 triangles
    let reduced = mesh.decimate_with(0.1, DecimationMethod::VertexClustering);
    assert!(
        reduced.num_triangles() < 400,
        "Aggressive clustering should significantly reduce, got {}",
        reduced.num_triangles()
    );
}

// ── Cross-method comparison ──

#[test]
fn all_methods_produce_valid_output() {
    let mesh = decimate_make_grid(10);
    for method in DecimationMethod::ALL {
        let reduced = mesh.decimate_with(0.5, method);
        assert!(reduced.num_triangles() > 0, "{:?} produced 0 tris", method);
        assert!(reduced.num_triangles() <= 200, "{:?} didn't reduce", method);
        assert_eq!(reduced.face_normals.len(), reduced.indices.len());
        let flat = reduced.to_flat_vertices_f32();
        assert_eq!(flat.len(), reduced.num_triangles() * 18);
    }
}

#[test]
fn decimate_method_from_str_loose() {
    assert_eq!(DecimationMethod::from_str_loose("qem"), DecimationMethod::Qem);
    assert_eq!(DecimationMethod::from_str_loose("QEM"), DecimationMethod::Qem);
    assert_eq!(DecimationMethod::from_str_loose("edge"), DecimationMethod::EdgeLength);
    assert_eq!(DecimationMethod::from_str_loose("edge_length"), DecimationMethod::EdgeLength);
    assert_eq!(DecimationMethod::from_str_loose("cluster"), DecimationMethod::VertexClustering);
    assert_eq!(DecimationMethod::from_str_loose("vcluster"), DecimationMethod::VertexClustering);
    assert_eq!(DecimationMethod::from_str_loose("unknown"), DecimationMethod::Qem); // default
}

// ── decompose ──

/// Make a simple box mesh (axis-aligned, centred at origin).
fn decompose_make_box(hx: f64, hy: f64, hz: f64) -> MeshData {
    let vertices = vec![
        Point3::new(-hx, -hy, -hz), // 0
        Point3::new(hx, -hy, -hz),  // 1
        Point3::new(hx, hy, -hz),   // 2
        Point3::new(-hx, hy, -hz),  // 3
        Point3::new(-hx, -hy, hz),  // 4
        Point3::new(hx, -hy, hz),   // 5
        Point3::new(hx, hy, hz),    // 6
        Point3::new(-hx, hy, hz),   // 7
    ];
    let indices = vec![
        // -Z
        [0, 2, 1],
        [0, 3, 2],
        // +Z
        [4, 5, 6],
        [4, 6, 7],
        // -Y
        [0, 1, 5],
        [0, 5, 4],
        // +Y
        [2, 3, 7],
        [2, 7, 6],
        // -X
        [0, 4, 7],
        [0, 7, 3],
        // +X
        [1, 2, 6],
        [1, 6, 5],
    ];
    let face_normals = indices
        .iter()
        .map(|tri| {
            let v0 = &vertices[tri[0] as usize];
            let v1 = &vertices[tri[1] as usize];
            let v2 = &vertices[tri[2] as usize];
            (v1 - v0).cross(&(v2 - v0)).normalize()
        })
        .collect();
    MeshData {
        vertices,
        indices,
        face_normals,
        vertex_normals: Vec::new(),
        texcoords: Vec::new(),
        materials: Vec::new(),
        submeshes: Vec::new(),
    }
}

/// Make an L-shaped mesh (two boxes joined).
fn decompose_make_l_shape() -> MeshData {
    // Build two boxes and merge them into one mesh.
    let b1 = decompose_make_box(1.0, 0.25, 0.25);
    let mut b2 = decompose_make_box(0.25, 1.0, 0.25);
    // Offset b2 so it forms an L.
    for v in &mut b2.vertices {
        v.x += 0.75;
        v.y += 0.75;
    }
    decompose_merge_meshes(&b1, &b2)
}

fn decompose_merge_meshes(a: &MeshData, b: &MeshData) -> MeshData {
    let offset = a.vertices.len() as u32;
    let mut vertices = a.vertices.clone();
    vertices.extend_from_slice(&b.vertices);
    let mut indices = a.indices.clone();
    for tri in &b.indices {
        indices.push([tri[0] + offset, tri[1] + offset, tri[2] + offset]);
    }
    let face_normals = indices
        .iter()
        .map(|tri| {
            let v0 = &vertices[tri[0] as usize];
            let v1 = &vertices[tri[1] as usize];
            let v2 = &vertices[tri[2] as usize];
            let n = (v1 - v0).cross(&(v2 - v0));
            let len = n.norm();
            if len > 1e-30 {
                n / len
            } else {
                Vector3::zeros()
            }
        })
        .collect();
    MeshData {
        vertices,
        indices,
        face_normals,
        vertex_normals: Vec::new(),
        texcoords: Vec::new(),
        materials: Vec::new(),
        submeshes: Vec::new(),
    }
}

// ── DecompositionMethod ──

#[test]
fn method_labels() {
    assert_eq!(DecompositionMethod::Vhacd.label(), "V-HACD");
    assert_eq!(DecompositionMethod::SphereTree.label(), "Sphere Tree");
    assert_eq!(DecompositionMethod::PrimitiveFit.label(), "Primitive Fit");
}

#[test]
fn decompose_method_from_str_loose() {
    assert_eq!(DecompositionMethod::from_str_loose("vhacd"), DecompositionMethod::Vhacd);
    assert_eq!(DecompositionMethod::from_str_loose("V-HACD"), DecompositionMethod::Vhacd);
    assert_eq!(DecompositionMethod::from_str_loose("convex"), DecompositionMethod::Vhacd);
    assert_eq!(DecompositionMethod::from_str_loose("sphere"), DecompositionMethod::SphereTree);
    assert_eq!(DecompositionMethod::from_str_loose("sphere_tree"), DecompositionMethod::SphereTree);
    assert_eq!(DecompositionMethod::from_str_loose("primitive"), DecompositionMethod::PrimitiveFit);
    assert_eq!(DecompositionMethod::from_str_loose("primitives"), DecompositionMethod::PrimitiveFit);
    assert_eq!(DecompositionMethod::from_str_loose("unknown"), DecompositionMethod::Vhacd);
}

// ── V-HACD ──

#[test]
fn vhacd_l_shape_produces_multiple_hulls() {
    let mesh = decompose_make_l_shape();
    let params = VhacdParams {
        max_hulls: 8,
        resolution: 64,
        concavity: 0.001,
    };
    let hulls = vhacd(&mesh, &params);
    // L-shape is concave → should produce ≥2 hulls.
    assert!(
        hulls.len() >= 1, // V-HACD may or may not split perfectly.
        "V-HACD on L-shape should produce at least 1 hull, got {}",
        hulls.len()
    );
    // Each hull should have valid MeshData.
    for h in &hulls {
        assert!(h.num_vertices() >= 4);
        assert!(h.num_triangles() >= 4);
        assert_eq!(h.face_normals.len(), h.indices.len());
    }
}

#[test]
fn vhacd_empty_mesh_returns_empty() {
    let mesh = MeshData {
        vertices: Vec::new(),
        indices: Vec::new(),
        face_normals: Vec::new(),
        vertex_normals: Vec::new(),
        texcoords: Vec::new(),
        materials: Vec::new(),
        submeshes: Vec::new(),
    };
    assert!(vhacd(&mesh, &VhacdParams::default()).is_empty());
}

#[test]
fn vhacd_custom_resolution() {
    let mesh = decompose_make_box(1.0, 1.0, 1.0);
    let params = VhacdParams {
        resolution: 32,
        max_hulls: 4,
        concavity: 0.05,
    };
    let hulls = vhacd(&mesh, &params);
    assert!(!hulls.is_empty());
}

// ── Sphere Tree ──

#[test]
fn sphere_tree_box_produces_spheres() {
    let mesh = decompose_make_box(1.0, 1.0, 1.0);
    let spheres = sphere_tree(&mesh, &SphereTreeParams::default());
    assert!(!spheres.is_empty());
    // All spheres should have positive radius.
    for s in &spheres {
        assert!(s.radius >= 0.0, "Sphere radius should be >= 0");
    }
}

#[test]
fn sphere_tree_respects_max_spheres() {
    let mesh = decompose_make_l_shape();
    let params = SphereTreeParams {
        max_spheres: 4,
        max_depth: 10,
        min_triangles: 1,
    };
    let spheres = sphere_tree(&mesh, &params);
    assert!(
        spheres.len() <= params.max_spheres,
        "Should not exceed max_spheres={}, got {}",
        params.max_spheres,
        spheres.len()
    );
}

#[test]
fn sphere_tree_with_depth_1_produces_2() {
    let mesh = decompose_make_l_shape();
    let params = SphereTreeParams {
        max_spheres: 100,
        max_depth: 1,
        min_triangles: 1,
    };
    let spheres = sphere_tree(&mesh, &params);
    assert!(
        spheres.len() <= 2,
        "Depth 1 should produce at most 2 spheres, got {}",
        spheres.len()
    );
}

#[test]
fn sphere_tree_encloses_vertices() {
    let mesh = decompose_make_box(1.0, 1.0, 1.0);
    let params = SphereTreeParams {
        max_spheres: 1,
        max_depth: 0,
        min_triangles: 1,
    };
    let spheres = sphere_tree(&mesh, &params);
    assert_eq!(spheres.len(), 1);
    let s = &spheres[0];
    // Every vertex should be inside or on the sphere (with tolerance).
    for v in &mesh.vertices {
        let dist = (v - s.center).norm();
        assert!(
            dist <= s.radius + 1e-6,
            "Vertex {:?} outside sphere: dist={:.6}, r={:.6}",
            v,
            dist,
            s.radius
        );
    }
}

#[test]
fn sphere_tree_empty_mesh_returns_empty() {
    let mesh = MeshData {
        vertices: Vec::new(),
        indices: Vec::new(),
        face_normals: Vec::new(),
        vertex_normals: Vec::new(),
        texcoords: Vec::new(),
        materials: Vec::new(),
        submeshes: Vec::new(),
    };
    assert!(sphere_tree(&mesh, &SphereTreeParams::default()).is_empty());
}

// ── Bounding sphere ──

#[test]
fn bounding_sphere_single_point() {
    let s = bounding_sphere(&[Point3::new(1.0, 2.0, 3.0)]);
    assert!((s.center - Point3::new(1.0, 2.0, 3.0)).norm() < 1e-10);
    assert!(s.radius.abs() < 1e-10);
}

#[test]
fn bounding_sphere_contains_all_points() {
    let pts: Vec<Point3<f64>> = (0..100)
        .map(|i| {
            let t = i as f64 * 0.1;
            Point3::new(t.cos(), t.sin(), t * 0.3)
        })
        .collect();
    let s = bounding_sphere(&pts);
    for p in &pts {
        assert!(
            (p - s.center).norm() <= s.radius + 1e-10,
            "Point {:?} outside sphere",
            p
        );
    }
}

// ── MeshData convenience methods ──

#[test]
fn meshdata_decompose_spheres() {
    let mesh = decompose_make_box(1.0, 1.0, 1.0);
    let spheres = mesh.decompose_spheres();
    assert!(!spheres.is_empty());
}

// ── Primitive Fitting ──

#[test]
fn fit_cube_produces_box() {
    // A cube should be best fit by a Box (smallest volume)
    let points: Vec<Point3<f64>> = [
        [-1.0, -1.0, -1.0], [1.0, -1.0, -1.0], [1.0, 1.0, -1.0], [-1.0, 1.0, -1.0],
        [-1.0, -1.0, 1.0], [1.0, -1.0, 1.0], [1.0, 1.0, 1.0], [-1.0, 1.0, 1.0],
    ].iter().map(|c| Point3::new(c[0], c[1], c[2])).collect();
    let prim = fit_primitive_to_points(&points);
    assert!(
        matches!(prim.kind, PrimitiveKind::Box { .. }),
        "Cube should fit as Box, got {:?}", prim.kind
    );
    // Half-extents should be ~1.0 each
    if let PrimitiveKind::Box { hx, hy, hz } = prim.kind {
        let mut sorted = [hx, hy, hz];
        sorted.sort_by(|a, b| a.partial_cmp(b).unwrap());
        for h in sorted {
            assert!((h - 1.0).abs() < 0.1, "half-extent {h} should be ~1.0");
        }
    }
}

#[test]
fn fit_elongated_box_produces_box() {
    // An elongated box (2x1x0.5) should still be a Box
    let points: Vec<Point3<f64>> = [
        [-2.0, -1.0, -0.5], [2.0, -1.0, -0.5], [2.0, 1.0, -0.5], [-2.0, 1.0, -0.5],
        [-2.0, -1.0, 0.5], [2.0, -1.0, 0.5], [2.0, 1.0, 0.5], [-2.0, 1.0, 0.5],
    ].iter().map(|c| Point3::new(c[0], c[1], c[2])).collect();
    let prim = fit_primitive_to_points(&points);
    assert!(
        matches!(prim.kind, PrimitiveKind::Box { .. }),
        "Elongated box should fit as Box, got {:?}", prim.kind
    );
}

#[test]
fn fit_flat_disk_produces_cylinder() {
    // Points on a flat disk (R=1, Z ± 0.05) → Cylinder should be smaller than Box
    let mut points = Vec::new();
    for i in 0..64 {
        let a = (i as f64) * std::f64::consts::TAU / 64.0;
        let (c, s) = (a.cos(), a.sin());
        points.push(Point3::new(c, s, 0.05));
        points.push(Point3::new(c, s, -0.05));
    }
    let prim = fit_primitive_to_points(&points);
    assert!(
        matches!(prim.kind, PrimitiveKind::Cylinder { .. }),
        "Flat disk should fit as Cylinder, got {:?}", prim.kind
    );
}

#[test]
fn fit_sphere_like_produces_sphere() {
    // Points on a sphere surface → sphere has smallest volume
    let mut points = Vec::new();
    let n = 20;
    for i in 0..n {
        let phi = std::f64::consts::PI * (i as f64) / (n as f64 - 1.0);
        for j in 0..n {
            let theta = std::f64::consts::TAU * (j as f64) / n as f64;
            points.push(Point3::new(
                phi.sin() * theta.cos(),
                phi.sin() * theta.sin(),
                phi.cos(),
            ));
        }
    }
    let prim = fit_primitive_to_points(&points);
    assert!(
        matches!(prim.kind, PrimitiveKind::Sphere { .. }),
        "Sphere-like points should fit as Sphere, got {:?}", prim.kind
    );
}

#[test]
fn fit_long_cylinder_produces_cylinder() {
    // Points along a long thin cylinder (R=0.2, L=4)
    let mut points = Vec::new();
    for k in 0..20 {
        let z = -2.0 + 4.0 * (k as f64) / 19.0;
        for i in 0..16 {
            let a = (i as f64) * std::f64::consts::TAU / 16.0;
            points.push(Point3::new(0.2 * a.cos(), 0.2 * a.sin(), z));
        }
    }
    let prim = fit_primitive_to_points(&points);
    assert!(
        matches!(prim.kind, PrimitiveKind::Cylinder { .. }),
        "Long thin cylinder should fit as Cylinder, got {:?}", prim.kind
    );
}

#[test]
fn primitive_fit_l_shape_mesh() {
    let mesh = decompose_make_l_shape();
    let prims = primitive_fit(&mesh, &VhacdParams {
        max_hulls: 4,
        resolution: 32,
        concavity: 0.01,
    });
    assert!(!prims.is_empty(), "L-shape should produce primitives");
}

#[test]
fn primitive_kind_volume() {
    let b = PrimitiveKind::Box { hx: 1.0, hy: 1.0, hz: 1.0 };
    assert!((b.volume() - 8.0).abs() < 1e-10);

    let c = PrimitiveKind::Cylinder { radius: 1.0, half_length: 1.0 };
    assert!((c.volume() - 2.0 * std::f64::consts::PI).abs() < 1e-10);

    let s = PrimitiveKind::Sphere { radius: 1.0 };
    assert!((s.volume() - 4.0 / 3.0 * std::f64::consts::PI).abs() < 1e-10);
}

// ── collada ──

/// Minimal Collada with one triangle, one material, one diffuse colour.
const MINIMAL_DAE: &str = r##"<?xml version="1.0" encoding="utf-8"?>
<COLLADA xmlns="http://www.collada.org/2005/11/COLLADASchema" version="1.4.1">
  <asset><up_axis>Z_UP</up_axis></asset>
  <library_effects>
<effect id="eff0">
  <profile_COMMON>
    <technique sid="common">
      <phong>
        <diffuse><color>1 0 0 1</color></diffuse>
        <specular><color>0.5 0.5 0.5 1</color></specular>
        <shininess><float>50</float></shininess>
      </phong>
    </technique>
  </profile_COMMON>
</effect>
  </library_effects>
  <library_materials>
<material id="red_mat" name="red_mat">
  <instance_effect url="#eff0"/>
</material>
  </library_materials>
  <library_geometries>
<geometry id="geom0" name="geom0">
  <mesh>
    <source id="geom0-positions">
      <float_array id="geom0-positions-array" count="9">0 0 0 1 0 0 0 1 0</float_array>
      <technique_common>
        <accessor source="#geom0-positions-array" count="3" stride="3">
          <param name="X" type="float"/><param name="Y" type="float"/><param name="Z" type="float"/>
        </accessor>
      </technique_common>
    </source>
    <source id="geom0-normals">
      <float_array id="geom0-normals-array" count="3">0 0 1</float_array>
      <technique_common>
        <accessor source="#geom0-normals-array" count="1" stride="3">
          <param name="X" type="float"/><param name="Y" type="float"/><param name="Z" type="float"/>
        </accessor>
      </technique_common>
    </source>
    <vertices id="geom0-vertices">
      <input semantic="POSITION" source="#geom0-positions"/>
    </vertices>
    <triangles count="1" material="red_mat">
      <input semantic="VERTEX" source="#geom0-vertices" offset="0"/>
      <input semantic="NORMAL" source="#geom0-normals" offset="1"/>
      <p>0 0 1 0 2 0</p>
    </triangles>
  </mesh>
</geometry>
  </library_geometries>
  <library_visual_scenes>
<visual_scene id="Scene" name="Scene">
  <node id="node0" type="NODE">
    <instance_geometry url="#geom0">
      <bind_material><technique_common>
        <instance_material symbol="red_mat" target="#red_mat"/>
      </technique_common></bind_material>
    </instance_geometry>
  </node>
</visual_scene>
  </library_visual_scenes>
  <scene><instance_visual_scene url="#Scene"/></scene>
</COLLADA>"##;

#[test]
fn parse_minimal_dae() {
    let mesh = load_dae_string(MINIMAL_DAE, Path::new(".")).unwrap();
    assert_eq!(mesh.num_vertices(), 3);
    assert_eq!(mesh.num_triangles(), 1);
    assert_eq!(mesh.num_materials(), 1);
    assert_eq!(mesh.num_submeshes(), 1);

    // Check material
    let mat = &mesh.materials[0];
    assert_eq!(mat.name, "red_mat");
    near(mat.diffuse[0], 1.0, f64::EPSILON);
    near(mat.diffuse[1], 0.0, f64::EPSILON);
    near(mat.specular[0], 0.5, f64::EPSILON);
    near(mat.shininess, 50.0, f64::EPSILON);

    // Check submesh
    let sm = &mesh.submeshes[0];
    assert_eq!(sm.tri_start, 0);
    assert_eq!(sm.tri_count, 1);
    assert_eq!(sm.material_index, Some(0));
}

#[test]
fn roundtrip_write_read() {
    let mesh = load_dae_string(MINIMAL_DAE, Path::new(".")).unwrap();
    let xml = write_dae_string(&mesh);
    let mesh2 = load_dae_string(&xml, Path::new(".")).unwrap();

    assert_eq!(mesh.num_vertices(), mesh2.num_vertices());
    assert_eq!(mesh.num_triangles(), mesh2.num_triangles());
    assert_eq!(mesh.num_materials(), mesh2.num_materials());

    // Material properties should survive roundtrip.
    near(mesh2.materials[0].diffuse[0], 1.0, f64::EPSILON);
    near(mesh2.materials[0].shininess, 50.0, f64::EPSILON);
}

#[test]
fn up_axis_y_up() {
    // Same mesh but Y_UP — vertex (0, 0, 1) in Z_UP becomes (0, 1, 0) in Y_UP.
    let xml = MINIMAL_DAE.replace("Z_UP", "Y_UP")
        .replace("0 0 0 1 0 0 0 1 0", "0 0 0 1 0 0 0 0 -1");
    let mesh = load_dae_string(&xml, Path::new(".")).unwrap();
    // After up-axis correction (Y_UP → Z_UP internal): (x, z, -y)
    // Original verts in Y_UP: (0,0,0), (1,0,0), (0,0,-1)
    // fix_up_axis(0, 0, -1, "Y_UP") → (0, -1, 0)
    let v2 = &mesh.vertices[2];
    near(v2.y, -1.0, 1e-10);
    near(v2.z, 0.0, 1e-10);
}

/// Two submeshes with different materials in one DAE.
const TWO_MATERIAL_DAE: &str = r##"<?xml version="1.0" encoding="utf-8"?>
<COLLADA xmlns="http://www.collada.org/2005/11/COLLADASchema" version="1.4.1">
  <asset><up_axis>Z_UP</up_axis></asset>
  <library_effects>
<effect id="eff_red"><profile_COMMON><technique sid="common"><phong>
  <diffuse><color>1 0 0 1</color></diffuse>
</phong></technique></profile_COMMON></effect>
<effect id="eff_blue"><profile_COMMON><technique sid="common"><phong>
  <diffuse><color>0 0 1 1</color></diffuse>
</phong></technique></profile_COMMON></effect>
  </library_effects>
  <library_materials>
<material id="mat_red"><instance_effect url="#eff_red"/></material>
<material id="mat_blue"><instance_effect url="#eff_blue"/></material>
  </library_materials>
  <library_geometries>
<geometry id="g0">
  <mesh>
    <source id="g0-pos"><float_array id="g0-pos-arr" count="9">0 0 0 1 0 0 0 1 0</float_array>
      <technique_common><accessor source="#g0-pos-arr" count="3" stride="3">
        <param name="X" type="float"/><param name="Y" type="float"/><param name="Z" type="float"/>
      </accessor></technique_common>
    </source>
    <vertices id="g0-v"><input semantic="POSITION" source="#g0-pos"/></vertices>
    <triangles count="1" material="mat_red">
      <input semantic="VERTEX" source="#g0-v" offset="0"/>
      <p>0 1 2</p>
    </triangles>
  </mesh>
</geometry>
<geometry id="g1">
  <mesh>
    <source id="g1-pos"><float_array id="g1-pos-arr" count="9">2 0 0 3 0 0 2 1 0</float_array>
      <technique_common><accessor source="#g1-pos-arr" count="3" stride="3">
        <param name="X" type="float"/><param name="Y" type="float"/><param name="Z" type="float"/>
      </accessor></technique_common>
    </source>
    <vertices id="g1-v"><input semantic="POSITION" source="#g1-pos"/></vertices>
    <triangles count="1" material="mat_blue">
      <input semantic="VERTEX" source="#g1-v" offset="0"/>
      <p>0 1 2</p>
    </triangles>
  </mesh>
</geometry>
  </library_geometries>
  <library_visual_scenes>
<visual_scene id="Scene">
  <node id="n0" type="NODE">
    <instance_geometry url="#g0">
      <bind_material><technique_common>
        <instance_material symbol="mat_red" target="#mat_red"/>
      </technique_common></bind_material>
    </instance_geometry>
  </node>
  <node id="n1" type="NODE">
    <instance_geometry url="#g1">
      <bind_material><technique_common>
        <instance_material symbol="mat_blue" target="#mat_blue"/>
      </technique_common></bind_material>
    </instance_geometry>
  </node>
</visual_scene>
  </library_visual_scenes>
  <scene><instance_visual_scene url="#Scene"/></scene>
</COLLADA>"##;

#[test]
fn two_submeshes_two_materials() {
    let mesh = load_dae_string(TWO_MATERIAL_DAE, Path::new(".")).unwrap();
    assert_eq!(mesh.num_triangles(), 2);
    assert_eq!(mesh.num_materials(), 2);
    assert_eq!(mesh.num_submeshes(), 2);

    // First submesh → red.
    let sm0 = &mesh.submeshes[0];
    assert_eq!(sm0.tri_count, 1);
    let mat0 = &mesh.materials[sm0.material_index.unwrap()];
    near(mat0.diffuse[0], 1.0, f64::EPSILON);
    near(mat0.diffuse[2], 0.0, f64::EPSILON);

    // Second submesh → blue.
    let sm1 = &mesh.submeshes[1];
    assert_eq!(sm1.tri_count, 1);
    let mat1 = &mesh.materials[sm1.material_index.unwrap()];
    near(mat1.diffuse[0], 0.0, f64::EPSILON);
    near(mat1.diffuse[2], 1.0, f64::EPSILON);

    // material_for_triangle
    let m_t0 = mesh.material_for_triangle(0).unwrap();
    near(m_t0.diffuse[0], 1.0, f64::EPSILON);
    let m_t1 = mesh.material_for_triangle(1).unwrap();
    near(m_t1.diffuse[2], 1.0, f64::EPSILON);
}

#[test]
fn texture_reference_parsing() {
    let xml = r##"<?xml version="1.0" encoding="utf-8"?>
<COLLADA xmlns="http://www.collada.org/2005/11/COLLADASchema" version="1.4.1">
  <asset><up_axis>Z_UP</up_axis></asset>
  <library_images>
<image id="tex0"><init_from>textures/diffuse.png</init_from></image>
  </library_images>
  <library_effects>
<effect id="eff0"><profile_COMMON>
  <newparam sid="surf0"><surface type="2D"><init_from>tex0</init_from></surface></newparam>
  <newparam sid="samp0"><sampler2D><source>surf0</source></sampler2D></newparam>
  <technique sid="common"><phong>
    <diffuse><texture texture="samp0" texcoord="UVMap"/></diffuse>
  </phong></technique>
</profile_COMMON></effect>
  </library_effects>
  <library_materials>
<material id="textured_mat"><instance_effect url="#eff0"/></material>
  </library_materials>
  <library_geometries>
<geometry id="g0"><mesh>
  <source id="g0-pos"><float_array id="g0-pa" count="9">0 0 0 1 0 0 0 1 0</float_array>
    <technique_common><accessor source="#g0-pa" count="3" stride="3">
      <param name="X" type="float"/><param name="Y" type="float"/><param name="Z" type="float"/>
    </accessor></technique_common>
  </source>
  <source id="g0-uv"><float_array id="g0-uva" count="6">0 0 1 0 0 1</float_array>
    <technique_common><accessor source="#g0-uva" count="3" stride="2">
      <param name="S" type="float"/><param name="T" type="float"/>
    </accessor></technique_common>
  </source>
  <vertices id="g0-v"><input semantic="POSITION" source="#g0-pos"/></vertices>
  <triangles count="1" material="textured_mat">
    <input semantic="VERTEX" source="#g0-v" offset="0"/>
    <input semantic="TEXCOORD" source="#g0-uv" offset="1" set="0"/>
    <p>0 0 1 1 2 2</p>
  </triangles>
</mesh></geometry>
  </library_geometries>
  <library_visual_scenes>
<visual_scene id="Scene">
  <node id="n0" type="NODE">
    <instance_geometry url="#g0">
      <bind_material><technique_common>
        <instance_material symbol="textured_mat" target="#textured_mat"/>
      </technique_common></bind_material>
    </instance_geometry>
  </node>
</visual_scene>
  </library_visual_scenes>
  <scene><instance_visual_scene url="#Scene"/></scene>
</COLLADA>"##;

    let mesh = load_dae_string(xml, Path::new("/robot/meshes")).unwrap();
    assert_eq!(mesh.num_vertices(), 3);
    assert!(mesh.has_texcoords());
    assert_eq!(mesh.num_materials(), 1);

    let mat = &mesh.materials[0];
    assert!(mat.texture_diffuse.is_some());
    let tex_path = mat.texture_diffuse.as_ref().unwrap();
    assert!(tex_path.contains("textures/diffuse.png"));

    // UV coords
    near(mesh.texcoords[0].x, 0.0, f64::EPSILON);
    near(mesh.texcoords[1].x, 1.0, f64::EPSILON);
}

#[test]
fn polylist_parsing() {
    let xml = r##"<?xml version="1.0" encoding="utf-8"?>
<COLLADA xmlns="http://www.collada.org/2005/11/COLLADASchema" version="1.4.1">
  <asset><up_axis>Z_UP</up_axis></asset>
  <library_geometries>
<geometry id="g0"><mesh>
  <source id="g0-pos"><float_array id="g0-pa" count="12">0 0 0  1 0 0  1 1 0  0 1 0</float_array>
    <technique_common><accessor source="#g0-pa" count="4" stride="3">
      <param name="X" type="float"/><param name="Y" type="float"/><param name="Z" type="float"/>
    </accessor></technique_common>
  </source>
  <vertices id="g0-v"><input semantic="POSITION" source="#g0-pos"/></vertices>
  <polylist count="1">
    <input semantic="VERTEX" source="#g0-v" offset="0"/>
    <vcount>4</vcount>
    <p>0 1 2 3</p>
  </polylist>
</mesh></geometry>
  </library_geometries>
  <scene><instance_visual_scene url="#Scene"/></scene>
</COLLADA>"##;

    let mesh = load_dae_string(xml, Path::new(".")).unwrap();
    // Quad fan-triangulated → 2 triangles.
    assert_eq!(mesh.num_triangles(), 2);
    assert_eq!(mesh.num_vertices(), 4);
}

#[test]
fn two_material_roundtrip() {
    let mesh = load_dae_string(TWO_MATERIAL_DAE, Path::new(".")).unwrap();
    let xml2 = write_dae_string(&mesh);
    let mesh2 = load_dae_string(&xml2, Path::new(".")).unwrap();

    assert_eq!(mesh2.num_triangles(), mesh.num_triangles());
    assert_eq!(mesh2.num_materials(), mesh.num_materials());
    assert_eq!(mesh2.num_submeshes(), mesh.num_submeshes());

    // Verify materials survived.
    for mi in 0..mesh.num_materials() {
        near(mesh2.materials[mi].diffuse[0], mesh.materials[mi].diffuse[0], 1e-6);
        near(mesh2.materials[mi].diffuse[2], mesh.materials[mi].diffuse[2], 1e-6);
    }
}

// ── Further properties ──

fn uneven_mesh() -> MeshData {
    let mut all = decompose_make_box(0.1, 0.1, 0.1);
    for i in 0..3 {
        let mut b = decompose_make_box(0.1, 0.1, 0.1);
        for v in &mut b.vertices {
            v.x += 10.0 + i as f64;
        }
        all = decompose_merge_meshes(&all, &b);
    }
    all
}

#[test]
fn spheres_stay_within_any_budget() {
    for mesh in [uneven_mesh(), decompose_make_l_shape()] {
        for max_spheres in 1..12 {
            let params = SphereTreeParams { max_spheres, max_depth: 10, min_triangles: 1 };
            let n = sphere_tree(&mesh, &params).len();
            assert!(1 <= n && n <= max_spheres, "{n} spheres of {max_spheres}");
            assert!(n <= mesh.indices.len());
        }
        let none = SphereTreeParams { max_spheres: 0, max_depth: 10, min_triangles: 1 };
        assert_eq!(sphere_tree(&mesh, &none).len(), 1);
    }
}

#[test]
fn depth_limits_the_spheres() {
    let mesh = uneven_mesh();
    for max_depth in 0..4 {
        let params = SphereTreeParams { max_spheres: 100, max_depth, min_triangles: 1 };
        assert!(sphere_tree(&mesh, &params).len() <= 1 << max_depth);
    }
}

#[test]
fn spheres_are_reported() {
    let mesh = uneven_mesh().lib();
    let mut log = ProgressLog { reports: Vec::new() };
    let params = SphereTreeParams::default();
    sphere_tree::sphere_tree_with_progress(&Floats, &mesh, &params, &mut log);
    assert_eq!(
        log.reports,
        vec![
            Report::Phase(decompose::PHASE_PREPARING),
            Report::Phase(decompose::PHASE_DECOMPOSING),
            Report::Phase(decompose::PHASE_DONE),
        ]
    );
}

#[test]
fn hulls_are_reported() {
    let mesh = decompose_make_box(1.0, 1.0, 0.05);
    let params = VhacdParams { max_hulls: 2, resolution: 16, concavity: 0.1 };
    let mut log = ProgressLog { reports: Vec::new() };
    let hulls = decompose::vhacd_with_progress(&Floats, &mesh.lib(), &params.lib(), &mut log);
    assert!(!hulls.is_empty());
    assert_eq!(log.reports[0], Report::Enter(decompose::PHASE_PREPARING));
    assert_eq!(log.reports[1], Report::Enter(decompose::PHASE_DECOMPOSING));
    assert_eq!(log.reports[2], Report::Enter(decompose::PHASE_HULLS));
    assert_eq!(log.reports[3], Report::Percent(0));
    assert_eq!(*log.reports.last().unwrap(), Report::Enter(decompose::PHASE_DONE));
}

#[test]
fn nothing_is_decomposed_into_nothing() {
    let mut mesh = decompose_make_box(1.0, 1.0, 1.0);
    mesh.indices.clear();
    let mut log = ProgressLog { reports: Vec::new() };
    let params = VhacdParams::default().lib();
    assert!(decompose::vhacd_with_progress(&Floats, &mesh.lib(), &params, &mut log).is_empty());
    assert_eq!(
        log.reports,
        vec![Report::Enter(decompose::PHASE_PREPARING), Report::Enter(decompose::PHASE_DONE)]
    );
    let mut more = ProgressLog { reports: Vec::new() };
    let found = primitive::primitive_fit_with_progress(&Floats, &mesh.lib(), &params, &mut more);
    assert!(found.is_empty());
    assert_eq!(log.reports, more.reports);
}

#[test]
fn shapes_are_reported_after_hulls() {
    let mesh = decompose_make_box(1.0, 1.0, 0.05).lib();
    let params = VhacdParams { max_hulls: 2, resolution: 16, concavity: 0.1 }.lib();
    let mut hulls = ProgressLog { reports: Vec::new() };
    decompose::vhacd_with_progress(&Floats, &mesh, &params, &mut hulls);
    let mut shapes = ProgressLog { reports: Vec::new() };
    primitive::primitive_fit_with_progress(&Floats, &mesh, &params, &mut shapes);
    let steps = hulls.reports.len() - 1;
    assert_eq!(hulls.reports[steps], Report::Enter(decompose::PHASE_DONE));
    assert_eq!(&shapes.reports[..steps], &hulls.reports[..steps]);
    let done = |r: &Report| *r == Report::Enter(decompose::PHASE_DONE) || *r == Report::Phase(decompose::PHASE_DONE);
    assert_eq!(shapes.reports.iter().filter(|r| done(r)).count(), 1);
    let rest = &shapes.reports[steps..];
    assert_eq!(rest[0], Report::Phase(decompose::PHASE_BUILDING));
    assert_eq!(rest[1], Report::Percent(0));
    assert_eq!(rest[rest.len() - 2], Report::Percent(100));
    assert_eq!(rest[rest.len() - 1], Report::Phase(decompose::PHASE_DONE));
}

#[test]
fn bar_has_hulls() {
    let hulls = decompose_make_box(1.0, 0.02, 0.02).decompose_vhacd();
    assert!(!hulls.is_empty());
    for h in &hulls {
        assert_eq!(h.face_normals.len(), h.indices.len());
    }
}

#[test]
fn cylinders_stand_along_their_last_axis() {
    let mut disk = Vec::new();
    for i in 0..64 {
        let a = (i as f64) * std::f64::consts::TAU / 64.0;
        disk.push(Point3::new(a.cos(), a.sin(), 0.05));
        disk.push(Point3::new(a.cos(), a.sin(), -0.05));
    }
    let prim = fit_primitive_to_points(&disk);
    let axis = prim.rotation * Vector3::z();
    near(axis.z.abs(), 1.0, 1e-9);
    near(prim.center.coords.norm(), 0.0, 1e-9);
    match prim.kind {
        PrimitiveKind::Cylinder { radius, half_length } => {
            near(radius, 1.0, 1e-9);
            near(half_length, 0.05, 1e-9);
        }
        other => panic!("{other:?}"),
    }
}

#[test]
fn box_of_points_has_their_extent() {
    let b = decompose_make_box(2.0, 1.0, 0.5);
    let prim = fit_primitive_to_points(&b.vertices);
    match prim.kind {
        PrimitiveKind::Box { hx, hy, hz } => {
            near(hx, 0.5, 1e-9);
            near(hy, 1.0, 1e-9);
            near(hz, 2.0, 1e-9);
        }
        other => panic!("{other:?}"),
    }
}

#[test]
fn progress_can_be_told_by_hand() {
    let mut log = ProgressLog { reports: Vec::new() };
    log.tell(Report::Percent(7));
    assert_eq!(log.reports, vec![Report::Percent(7)]);
}

struct Last {
    phase: u8,
    percent: u8,
    count: usize,
}

impl Listener for Last {
    fn hear(&mut self, r: Report) {
        self.count += 1;
        match r {
            Report::Enter(phase) => {
                self.phase = phase;
                self.percent = 0;
            }
            Report::Phase(phase) => self.phase = phase,
            Report::Percent(percent) => self.percent = percent,
        }
    }
}

#[test]
fn listeners_hear_every_report() {
    let mesh = decompose_make_box(1.0, 1.0, 0.05).lib();
    let params = VhacdParams { max_hulls: 2, resolution: 16, concavity: 0.1 }.lib();
    let mut log = ProgressLog { reports: Vec::new() };
    primitive::primitive_fit_with_progress(&Floats, &mesh, &params, &mut log);
    let mut narrator = Narrator::new(Last { phase: 0, percent: 0, count: 0 });
    primitive::primitive_fit_with_progress(&Floats, &mesh, &params, &mut narrator);
    assert_eq!(narrator.listener.count, log.reports.len());
    assert_eq!(narrator.listener.phase, decompose::PHASE_DONE);
    assert_eq!(narrator.listener.percent, 100);
}

#[test]
fn decimated_meshes_keep_only_used_vertices() {
    let mesh = decimate_make_grid(8);
    for method in DecimationMethod::ALL {
        let reduced = mesh.decimate_with(0.4, method);
        let mut used = vec![false; reduced.vertices.len()];
        for t in &reduced.indices {
            for v in t {
                used[*v as usize] = true;
            }
        }
        assert!(used.iter().all(|u| *u), "{method:?}");
    }
}

#[test]
fn free_functions_and_methods_agree() {
    let mesh = decimate_make_grid(6);
    let a = decimate::decimate(&Floats, &mesh.lib(), to_real(0.5));
    let b = decimate::decimate_with(&Floats, &mesh.lib(), to_real(0.5), DecimationMethod::Qem);
    assert_eq!(a.indices, b.indices);
    assert_eq!(a.vertices, b.vertices);
}

#[test]
fn broken_documents_are_refused() {
    let err = match load_dae_string("<COLLADA>", Path::new(".")) {
        Err(e) => e,
        Ok(_) => panic!("accepted"),
    };
    assert!(err.starts_with("DAE XML parse error: "), "{err}");
    assert!(err.len() > "DAE XML parse error: ".len());
}

#[test]
fn documents_name_what_they_hold() {
    let d = load_dae_string(MINIMAL_DAE, Path::new(".")).unwrap();
    let xml = write_dae_string(&d);
    assert!(xml.starts_with("<?xml version=\"1.0\" encoding=\"utf-8\"?>\n<COLLADA "));
    assert!(xml.contains("<up_axis>Z_UP</up_axis>"));
    assert!(xml.contains("red_mat"));
    assert!(xml.contains("0 0 0 1 0 0 0 1 0"));
}

#[test]
fn x_up_documents_are_turned() {
    let xml = MINIMAL_DAE.replace("Z_UP", "X_UP");
    let d = load_dae_string(&xml, Path::new(".")).unwrap();
    let v = &d.vertices[1];
    near(v.x, 0.0, 1e-12);
    near(v.z, 1.0, 1e-12);
}

/// A mesh with two submeshes; the second material has a texture and no name.
fn textured_mesh() -> LibMesh {
    let r = |x: f64| to_real(x);
    let c = |x: [f64; 4]| x.map(to_real);
    let point = |x: f64, y: f64, z: f64| Pt3 { x: r(x), y: r(y), z: r(z) };
    let vector = |x: f64, y: f64, z: f64| Vec3 { x: r(x), y: r(y), z: r(z) };
    let texture = |x: f64, y: f64| misarta::number::Point2 { x: r(x), y: r(y) };
    LibMesh {
        vertices: vec![
            point(0.0, 0.0, 0.0),
            point(1.0, 0.0, 0.0),
            point(0.0, 1.5, 0.0),
            point(0.0, 0.0, -2.0),
        ],
        indices: vec![[0, 1, 2], [0, 2, 3], [1, 3, 2]],
        face_normals: Vec::new(),
        vertex_normals: vec![
            vector(0.0, 0.0, 1.0),
            vector(0.0, 1.0, 0.0),
            vector(1.0, 0.0, 0.0),
            vector(0.0, 0.0, -1.0),
        ],
        texcoords: vec![texture(0.0, 0.0), texture(1.0, 0.0), texture(0.0, 0.5), texture(1.0, 1.0)],
        materials: vec![
            misarta::mesh::Material {
                name: "red".to_string(),
                ambient: c([0.1, 0.1, 0.1, 1.0]),
                diffuse: c([1.0, 0.0, 0.0, 1.0]),
                specular: c([0.5, 0.5, 0.5, 1.0]),
                emission: c([0.0, 0.0, 0.0, 1.0]),
                shininess: r(50.0),
                texture_diffuse: None,
            },
            misarta::mesh::Material {
                name: String::new(),
                ambient: c([0.0, 0.0, 0.0, 1.0]),
                diffuse: c([0.0, 0.0, 1.0, 1.0]),
                specular: c([0.0, 0.0, 0.0, 1.0]),
                emission: c([0.0, 0.0, 0.25, 1.0]),
                shininess: r(0.0),
                texture_diffuse: Some("wood.png".to_string()),
            },
        ],
        submeshes: vec![
            misarta::mesh::SubMesh {
                name: "body".to_string(),
                tri_start: 0,
                tri_count: 2,
                material_index: Some(1),
            },
            misarta::mesh::SubMesh {
                name: "lid".to_string(),
                tri_start: 2,
                tri_count: 1,
                material_index: Some(0),
            },
        ],
    }
}

/// A triangle without looks.
fn bare_mesh() -> LibMesh {
    let r = |x: f64| to_real(x);
    LibMesh {
        vertices: vec![
            Pt3 { x: r(0.0), y: r(0.0), z: r(0.0) },
            Pt3 { x: r(1.0), y: r(0.0), z: r(0.0) },
            Pt3 { x: r(0.0), y: r(1.5), z: r(0.0) },
        ],
        indices: vec![[0, 1, 2]],
        face_normals: vec![Vec3 { x: r(0.0), y: r(0.0), z: r(1.0) }],
        vertex_normals: Vec::new(),
        texcoords: Vec::new(),
        materials: Vec::new(),
        submeshes: Vec::new(),
    }
}

const TEXTURED_TEXT: &str = r##"<?xml version="1.0" encoding="utf-8"?>
<COLLADA xmlns="http://www.collada.org/2005/11/COLLADASchema" version="1.4.1">
  <asset>
    <up_axis>Z_UP</up_axis>
  </asset>
  <library_images>
    <image id="img_1" name="img_1">
      <init_from>wood.png</init_from>
    </image>
  </library_images>
  <library_effects>
    <effect id="effect_0">
      <profile_COMMON>
        <technique sid="common">
          <phong>
            <emission><color>0 0 0 1</color></emission>
            <ambient><color>0.1 0.1 0.1 1</color></ambient>
            <diffuse><color>1 0 0 1</color></diffuse>
            <specular><color>0.5 0.5 0.5 1</color></specular>
            <shininess><float>50</float></shininess>
          </phong>
        </technique>
      </profile_COMMON>
    </effect>
    <effect id="effect_1">
      <profile_COMMON>
        <newparam sid="surface_1"><surface type="2D"><init_from>img_1</init_from></surface></newparam>
        <newparam sid="sampler_1"><sampler2D><source>surface_1</source></sampler2D></newparam>
        <technique sid="common">
          <phong>
            <emission><color>0 0 0.25 1</color></emission>
            <ambient><color>0 0 0 1</color></ambient>
            <diffuse><texture texture="sampler_1" texcoord="UVMap"/></diffuse>
            <specular><color>0 0 0 1</color></specular>
            <shininess><float>0</float></shininess>
          </phong>
        </technique>
      </profile_COMMON>
    </effect>
  </library_effects>
  <library_materials>
    <material id="red" name="red"><instance_effect url="#effect_0"/></material>
    <material id="material_1" name="material_1"><instance_effect url="#effect_1"/></material>
  </library_materials>
  <library_geometries>
    <geometry id="mesh_0" name="mesh_0">
      <mesh>
        <source id="mesh_0-positions">
          <float_array id="mesh_0-positions-array" count="12">
            0 0 0 1 0 0 0 1.5 0 0 0 -2
          </float_array>
          <technique_common>
            <accessor source="#mesh_0-positions-array" count="4" stride="3">
              <param name="X" type="float"/><param name="Y" type="float"/><param name="Z" type="float"/>
            </accessor>
          </technique_common>
        </source>
        <source id="mesh_0-normals">
          <float_array id="mesh_0-normals-array" count="12">
            0 0 1 0 1 0 1 0 0 0 0 -1
          </float_array>
          <technique_common>
            <accessor source="#mesh_0-normals-array" count="4" stride="3">
              <param name="X" type="float"/><param name="Y" type="float"/><param name="Z" type="float"/>
            </accessor>
          </technique_common>
        </source>
        <source id="mesh_0-texcoords">
          <float_array id="mesh_0-texcoords-array" count="8">
            0 0 1 0 0 0.5 1 1
          </float_array>
          <technique_common>
            <accessor source="#mesh_0-texcoords-array" count="4" stride="2">
              <param name="S" type="float"/><param name="T" type="float"/>
            </accessor>
          </technique_common>
        </source>
        <vertices id="mesh_0-vertices">
          <input semantic="POSITION" source="#mesh_0-positions"/>
        </vertices>
        <triangles count="2" material="material_1">
          <input semantic="VERTEX" source="#mesh_0-vertices" offset="0"/>
          <input semantic="NORMAL" source="#mesh_0-normals" offset="1"/>
          <input semantic="TEXCOORD" source="#mesh_0-texcoords" offset="2" set="0"/>
          <p>0 0 0 1 1 1 2 2 2  0 0 0 2 2 2 3 3 3</p>
        </triangles>
      </mesh>
    </geometry>
    <geometry id="mesh_1" name="mesh_1">
      <mesh>
        <source id="mesh_1-positions">
          <float_array id="mesh_1-positions-array" count="12">
            0 0 0 1 0 0 0 1.5 0 0 0 -2
          </float_array>
          <technique_common>
            <accessor source="#mesh_1-positions-array" count="4" stride="3">
              <param name="X" type="float"/><param name="Y" type="float"/><param name="Z" type="float"/>
            </accessor>
          </technique_common>
        </source>
        <source id="mesh_1-normals">
          <float_array id="mesh_1-normals-array" count="12">
            0 0 1 0 1 0 1 0 0 0 0 -1
          </float_array>
          <technique_common>
            <accessor source="#mesh_1-normals-array" count="4" stride="3">
              <param name="X" type="float"/><param name="Y" type="float"/><param name="Z" type="float"/>
            </accessor>
          </technique_common>
        </source>
        <source id="mesh_1-texcoords">
          <float_array id="mesh_1-texcoords-array" count="8">
            0 0 1 0 0 0.5 1 1
          </float_array>
          <technique_common>
            <accessor source="#mesh_1-texcoords-array" count="4" stride="2">
              <param name="S" type="float"/><param name="T" type="float"/>
            </accessor>
          </technique_common>
        </source>
        <vertices id="mesh_1-vertices">
          <input semantic="POSITION" source="#mesh_1-positions"/>
        </vertices>
        <triangles count="1" material="red">
          <input semantic="VERTEX" source="#mesh_1-vertices" offset="0"/>
          <input semantic="NORMAL" source="#mesh_1-normals" offset="1"/>
          <input semantic="TEXCOORD" source="#mesh_1-texcoords" offset="2" set="0"/>
          <p>1 1 1 3 3 3 2 2 2</p>
        </triangles>
      </mesh>
    </geometry>
  </library_geometries>
  <library_visual_scenes>
    <visual_scene id="Scene" name="Scene">
      <node id="node_0" name="node_0" type="NODE">
        <instance_geometry url="#mesh_0">
          <bind_material><technique_common>
            <instance_material symbol="material_1" target="#material_1"/>
          </technique_common></bind_material>
        </instance_geometry>
      </node>
      <node id="node_1" name="node_1" type="NODE">
        <instance_geometry url="#mesh_1">
          <bind_material><technique_common>
            <instance_material symbol="red" target="#red"/>
          </technique_common></bind_material>
        </instance_geometry>
      </node>
    </visual_scene>
  </library_visual_scenes>
  <scene><instance_visual_scene url="#Scene"/></scene>
</COLLADA>
"##;

const BARE_TEXT: &str = r##"<?xml version="1.0" encoding="utf-8"?>
<COLLADA xmlns="http://www.collada.org/2005/11/COLLADASchema" version="1.4.1">
  <asset>
    <up_axis>Z_UP</up_axis>
  </asset>
  <library_effects>
  </library_effects>
  <library_materials>
  </library_materials>
  <library_geometries>
    <geometry id="mesh_0" name="mesh_0">
      <mesh>
        <source id="mesh_0-positions">
          <float_array id="mesh_0-positions-array" count="9">
            0 0 0 1 0 0 0 1.5 0
          </float_array>
          <technique_common>
            <accessor source="#mesh_0-positions-array" count="3" stride="3">
              <param name="X" type="float"/><param name="Y" type="float"/><param name="Z" type="float"/>
            </accessor>
          </technique_common>
        </source>
        <source id="mesh_0-normals">
          <float_array id="mesh_0-normals-array" count="3">
            0 0 1
          </float_array>
          <technique_common>
            <accessor source="#mesh_0-normals-array" count="1" stride="3">
              <param name="X" type="float"/><param name="Y" type="float"/><param name="Z" type="float"/>
            </accessor>
          </technique_common>
        </source>
        <vertices id="mesh_0-vertices">
          <input semantic="POSITION" source="#mesh_0-positions"/>
        </vertices>
        <triangles count="1">
          <input semantic="VERTEX" source="#mesh_0-vertices" offset="0"/>
          <p>0 1 2</p>
        </triangles>
      </mesh>
    </geometry>
  </library_geometries>
  <library_visual_scenes>
    <visual_scene id="Scene" name="Scene">
      <node id="node_0" name="node_0" type="NODE">
        <instance_geometry url="#mesh_0">
        </instance_geometry>
      </node>
    </visual_scene>
  </library_visual_scenes>
  <scene><instance_visual_scene url="#Scene"/></scene>
</COLLADA>
"##;

const PLAIN_TEXT: &str = r##"<?xml version="1.0" encoding="utf-8"?>
<COLLADA xmlns="http://www.collada.org/2005/11/COLLADASchema" version="1.4.1">
  <asset>
    <up_axis>Z_UP</up_axis>
  </asset>
  <library_effects>
    <effect id="effect_0">
      <profile_COMMON>
        <technique sid="common">
          <phong>
            <emission><color>0 0 0 1</color></emission>
            <ambient><color>0.1 0.1 0.1 1</color></ambient>
            <diffuse><color>1 0 0 1</color></diffuse>
            <specular><color>0.5 0.5 0.5 1</color></specular>
            <shininess><float>50</float></shininess>
          </phong>
        </technique>
      </profile_COMMON>
    </effect>
  </library_effects>
  <library_materials>
    <material id="red" name="red"><instance_effect url="#effect_0"/></material>
  </library_materials>
  <library_geometries>
    <geometry id="mesh_0" name="mesh_0">
      <mesh>
        <source id="mesh_0-positions">
          <float_array id="mesh_0-positions-array" count="9">
            0 0 0 1 0 0 0 1.5 0
          </float_array>
          <technique_common>
            <accessor source="#mesh_0-positions-array" count="3" stride="3">
              <param name="X" type="float"/><param name="Y" type="float"/><param name="Z" type="float"/>
            </accessor>
          </technique_common>
        </source>
        <source id="mesh_0-normals">
          <float_array id="mesh_0-normals-array" count="3">
            0 0 1
          </float_array>
          <technique_common>
            <accessor source="#mesh_0-normals-array" count="1" stride="3">
              <param name="X" type="float"/><param name="Y" type="float"/><param name="Z" type="float"/>
            </accessor>
          </technique_common>
        </source>
        <vertices id="mesh_0-vertices">
          <input semantic="POSITION" source="#mesh_0-positions"/>
        </vertices>
        <triangles count="1">
          <input semantic="VERTEX" source="#mesh_0-vertices" offset="0"/>
          <p>0 1 2</p>
        </triangles>
      </mesh>
    </geometry>
  </library_geometries>
  <library_visual_scenes>
    <visual_scene id="Scene" name="Scene">
      <node id="node_0" name="node_0" type="NODE">
        <instance_geometry url="#mesh_0">
        </instance_geometry>
      </node>
    </visual_scene>
  </library_visual_scenes>
  <scene><instance_visual_scene url="#Scene"/></scene>
</COLLADA>
"##;

#[test]
fn documents_are_written_line_by_line() {
    assert_eq!(collada::write_dae_string(&Floats, &textured_mesh()), TEXTURED_TEXT);
    assert_eq!(collada::write_dae_string(&Floats, &bare_mesh()), BARE_TEXT);
    let mut m = bare_mesh();
    m.materials.push(textured_mesh().materials.remove(0));
    m.submeshes.push(misarta::mesh::SubMesh {
        name: "all".to_string(),
        tri_start: 0,
        tri_count: 1,
        material_index: None,
    });
    assert_eq!(collada::write_dae_string(&Floats, &m), PLAIN_TEXT);
}

#[test]
fn written_meshes_come_back() {
    let m = textured_mesh();
    let xml = collada::write_dae_string(&Floats, &m);
    let r = collada::load_dae_string(&Floats, &xml, "parts").unwrap();
    assert_eq!(r.submeshes.len(), 2);
    assert_eq!(r.indices.len(), 3);
    let mut start: usize = 0;
    for (old, new) in m.submeshes.iter().zip(r.submeshes.iter()) {
        assert_eq!(new.tri_start, start);
        assert_eq!(new.tri_count, old.tri_count);
        for t in 0..old.tri_count {
            for c in 0..3 {
                let v = m.indices[old.tri_start + t][c] as usize;
                let w = r.indices[start + t][c] as usize;
                assert_eq!(r.vertices[w].x.bits, m.vertices[v].x.bits);
                assert_eq!(r.vertices[w].z.bits, m.vertices[v].z.bits);
                assert_eq!(r.vertex_normals[w].y.bits, m.vertex_normals[v].y.bits);
                assert_eq!(r.texcoords[w].y.bits, m.texcoords[v].y.bits);
            }
        }
        let a = &m.materials[old.material_index.unwrap()];
        let b = &r.materials[new.material_index.unwrap()];
        assert_eq!(b.ambient.map(to_float), a.ambient.map(to_float));
        assert_eq!(b.specular.map(to_float), a.specular.map(to_float));
        assert_eq!(b.emission.map(to_float), a.emission.map(to_float));
        assert_eq!(b.shininess.bits, a.shininess.bits);
        start += old.tri_count;
    }
    assert_eq!(r.materials[0].name, "material_1");
    assert_eq!(r.materials[0].texture_diffuse.as_deref(), Some("parts/wood.png"));
    assert_eq!(r.materials[1].name, "red");
    assert_eq!(r.materials[1].diffuse.map(to_float), [1.0, 0.0, 0.0, 1.0]);

    let bare = collada::write_dae_string(&Floats, &bare_mesh());
    let r = collada::load_dae_string(&Floats, &bare, "parts").unwrap();
    assert_eq!(r.submeshes.len(), 1);
    assert_eq!(r.submeshes[0].tri_count, 1);
    assert!(r.submeshes[0].material_index.is_none());
    assert!(r.vertex_normals.is_empty());
}

#[test]
fn collapsing_by_quadrics_clears_materials() {
    let mut mesh = decimate_make_grid(6).lib();
    mesh.materials = textured_mesh().materials;
    let n = mesh.materials.len();
    assert!(n > 0);
    let left = |ratio: f64, method: DecimationMethod| {
        mesh.decimate_with(&Floats, to_real(ratio), method).materials.len()
    };
    assert_eq!(left(0.5, DecimationMethod::Qem), 0);
    assert_eq!(left(0.5, DecimationMethod::EdgeLength), n);
    assert_eq!(left(0.5, DecimationMethod::VertexClustering), n);
    assert_eq!(left(1.0, DecimationMethod::Qem), n);
}

#[test]
fn symbols_belong_to_their_geometry() {
    let xml = TWO_MATERIAL_DAE
        .replace("material=\"mat_red\"", "material=\"mat\"")
        .replace("material=\"mat_blue\"", "material=\"mat\"")
        .replace("symbol=\"mat_red\"", "symbol=\"mat\"")
        .replace("symbol=\"mat_blue\"", "symbol=\"mat\"");
    let r = collada::load_dae_string(&Floats, &xml, ".").unwrap();
    let name = |i: usize| r.materials[r.submeshes[i].material_index.unwrap()].name.as_str();
    assert_eq!(name(0), "mat_red");
    assert_eq!(name(1), "mat_blue");
}

#[test]
fn names_are_escaped() {
    let mut m = textured_mesh();
    let name = "a&b <c> \"d\" 'e'\tf\ng\rh ]]> \u{e9}\u{1F600}";
    m.materials[0].name = name.to_string();
    m.materials[1].name = "&amp;".to_string();
    m.materials[1].texture_diffuse = Some("x<&>\"]]>y]>.png".to_string());
    let xml = collada::write_dae_string(&Floats, &m);
    assert!(xml.contains("id=\"a&amp;b &lt;c> &quot;d&quot; 'e'&#9;f&#10;g&#13;h ]]> \u{e9}\u{1F600}\""));
    assert!(xml.contains("<init_from>x&lt;&amp;>\"]]&gt;y]>.png</init_from>"));
    let r = collada::load_dae_string(&Floats, &xml, "parts").unwrap();
    assert_eq!(r.materials[0].name, "&amp;");
    assert_eq!(r.materials[0].texture_diffuse.as_deref(), Some("parts/x<&>\"]]>y]>.png"));
    assert_eq!(r.materials[1].name, name);
    assert_eq!(r.materials[1].diffuse.map(to_float), [1.0, 0.0, 0.0, 1.0]);
}

#[test]
fn documents_are_well_formed_whatever_they_hold() {
    let mut m = textured_mesh();
    m.materials[0].name = "a\u{1}b\u{FFFE}".to_string();
    m.materials[1].texture_diffuse = Some(String::new());
    m.vertices[0].x = to_real(f64::NAN);
    m.vertices[1].y = to_real(f64::INFINITY);
    m.submeshes[0].tri_count = 0;
    m.submeshes[1].material_index = Some(0);
    let xml = collada::write_dae_string(&Floats, &m);
    let r = collada::load_dae_string(&Floats, &xml, ".").unwrap();
    assert_eq!(r.submeshes.len(), 1);
    let name = r.materials.iter().map(|x| x.name.as_str()).find(|n| n.starts_with('a'));
    assert_eq!(name, Some("a\u{FFFD}b\u{FFFD}"));
}

#[test]
fn wanted_numbers_of_triangles_are_reached() {
    let mesh = decimate_make_grid(8).lib();
    let n = mesh.indices.len();
    for method in [DecimationMethod::Qem, DecimationMethod::EdgeLength] {
        for ratio in [0.0, 0.1, 0.35, 0.8] {
            let r = mesh.decimate_with(&Floats, to_real(ratio), method);
            let target = Floats.scaled_count(n, to_real(ratio));
            assert!(r.indices.len() <= target, "{method:?} {ratio}: {} of {target}", r.indices.len());
        }
    }
    for method in DecimationMethod::ALL {
        for ratio in [1.0, 7.5, f64::INFINITY] {
            assert_eq!(mesh.decimate_with(&Floats, to_real(ratio), method).indices.len(), n);
        }
    }
}

#[test]
fn loose_corners_are_left_alone_where_nothing_is_reduced() {
    let mut mesh = decimate_make_grid(8).lib();
    mesh.indices[0] = [0, 1, u32::MAX];
    for method in [DecimationMethod::Qem, DecimationMethod::EdgeLength, DecimationMethod::VertexClustering] {
        let r = mesh.decimate_with(&Floats, to_real(1.0), method);
        assert_eq!(r.indices, mesh.indices);
        assert_eq!(r.vertices.len(), mesh.vertices.len());
    }
}

#[test]
fn absolute_texture_paths_stay() {
    let mut m = textured_mesh();
    m.materials[1].texture_diffuse = Some("/somewhere/y.png".to_string());
    let xml = collada::write_dae_string(&Floats, &m);
    let r = collada::load_dae_string(&Floats, &xml, "parts").unwrap();
    let path = r.materials.iter().find_map(|x| x.texture_diffuse.clone());
    assert_eq!(path.as_deref(), Some("/somewhere/y.png"));
}

#[test]
fn geometry_elements_are_put_behind() {
    let m = textured_mesh();
    let numbers = misarta::dae_text::number_texts(&Floats, &m);
    for (start, count) in [(0, 3), (1, 1), (1, 9), (3, 2)] {
        let mut s = "before".to_string();
        misarta::dae_text::write_geometry_element(&mut s, "g", &m, &numbers, start, count, Some("red"));
        assert!(s.starts_with("before<geometry id=\"g\" name=\"g\">"));
        assert!(s.ends_with("</geometry>"));
        let p = s.split("<p>").nth(1).unwrap().split("</p>").next().unwrap();
        let p: Vec<usize> = p.split_whitespace().map(|w| w.parse().unwrap()).collect();
        let tris = misarta::dae_mesh::build_triangles_from_p(&p, 3, Some(0), None, None);
        let end = (start + count).min(m.indices.len());
        let got: Vec<[u32; 3]> = tris.iter().map(|t| [t[0] as u32, t[3] as u32, t[6] as u32]).collect();
        assert_eq!(got, m.indices[start..end]);
    }
}

#[test]
fn flat_meshes_have_no_parts() {
    let mut m = textured_mesh();
    m.vertices.pop();
    m.indices = vec![[0, 1, 2]];
    assert!(m.decompose_vhacd(&Floats).is_empty());
    m = textured_mesh();
    m.indices.clear();
    assert!(m.decompose_vhacd(&Floats).is_empty());
}
