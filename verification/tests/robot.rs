//! Kinematics and dynamics on doubles.

use misarta::aba;
use misarta::aba_derivatives;
use misarta::aba_derivatives::{DerivativeMath, RneaDerivatives};
use misarta::analysis;
use misarta::centroidal;
use misarta::centroidal::MassMath;
use misarta::collision;
use misarta::collision::{AllowedCollisionMatrix, CollisionPair, Proximity};
use misarta::constrained;
use misarta::constraint;
use misarta::constraint::qp_ik::{QpMath, QpSolver};
use misarta::constraint::ConstrainedIkConfig as LibConstrainedIkConfig;
use misarta::constraint::ConstrainedIkResult as LibConstrainedIkResult;
use misarta::constraint::ConstraintModel as LibConstraintModel;
use misarta::constraint::QpIkConfig as LibQpIkConfig;
use misarta::constraint::ReferenceFrame;
use misarta::constraint::RigidConstraint as LibConstraint;
use misarta::coriolis;
use misarta::crba;
use misarta::data::Data as LibData;
use misarta::fk;
use misarta::frames;
use misarta::frames::Frame as LibFrame;
use misarta::frames::FrameModel as LibFrameModel;
use misarta::geometry::GeometryShape as LibShape;
use misarta::geometry::{GeometryModel, GeometryObject};
use misarta::ik;
use misarta::ik::IkConfig as LibIkConfig;
use misarta::ik::IkResult as LibIkResult;
use misarta::ik::IkStatus;
use misarta::ik_differential;
use misarta::ik_differential::DiffIkConfig as LibDiffIkConfig;
use misarta::ik_differential::DiffIkConstraint as LibDiffIkConstraint;
use misarta::ik_nullspace;
use misarta::ik_nullspace::CollisionConfig as LibCollisionConfig;
use misarta::ik_solver::Damping as LibDamping;
use misarta::ik_solver::JointWeights as LibWeights;
use misarta::ik_solver::{PowerMath, SolverMethod};
use misarta::jacobian;
use misarta::joint::{
    prismatic_x, prismatic_z, revolute_x, revolute_y, revolute_z, JointType,
};
use misarta::limits::JointLimits as LibLimits;
use misarta::manifold::{integrate, FreeMotion};
use misarta::matrix::{LinearMath, Matrix};
use misarta::model::Model;
use misarta::model::ModelBuilder as Builder;
use misarta::number::Real;
use misarta::number::Vector3 as Vec3;
use misarta::pose::{PoseMath, RobotMath};
use misarta::rnea;
use misarta::spatial::LinkInertia as Link;
use misarta::spatial::{Inertia, Motion, Placement, SpatialMath};
use nalgebra as na;
use nalgebra::{DMatrix, DVector, Isometry3, Matrix3, Rotation3, UnitQuaternion, Vector3};
use parry3d_f64::query;
use parry3d_f64::shape::{Ball, Capsule, Cone, Cuboid, Cylinder, SharedShape};
use std::f64::consts::FRAC_PI_2;

/// Floating-point arithmetic behind the library, by nalgebra.
#[derive(Clone, Copy, Debug, Default)]
struct Floats;

/// The number with the bits of a double.
fn to_real(x: f64) -> Real {
    Real { bits: x.to_bits() }
}

/// The double with the bits of a number.
fn to_float(x: Real) -> f64 {
    f64::from_bits(x.bits)
}

/// Numbers with the bits of doubles.
fn to_reals(x: &[f64]) -> Vec<Real> {
    x.iter().map(|y| to_real(*y)).collect()
}

/// Doubles with the bits of numbers.
fn to_floats(x: &[Real]) -> Vec<f64> {
    x.iter().map(|y| to_float(*y)).collect()
}

/// A vector of the library as a vector of nalgebra.
fn na_vector(v: Vec3) -> na::Vector3<f64> {
    na::Vector3::new(to_float(v.x), to_float(v.y), to_float(v.z))
}

/// A vector of nalgebra as a vector of the library.
fn vector(v: &na::Vector3<f64>) -> Vec3 {
    Vec3 { x: to_real(v.x), y: to_real(v.y), z: to_real(v.z) }
}

/// A placement of the library as an isometry.
fn isometry(p: Placement) -> na::Isometry3<f64> {
    let q = na::Quaternion::new(to_float(p.w), to_float(p.i), to_float(p.j), to_float(p.k));
    na::Isometry3::from_parts(
        na::Translation3::from(na_vector(p.translation)),
        na::UnitQuaternion::new_unchecked(q),
    )
}

/// An isometry as a placement of the library.
fn placement(m: &na::Isometry3<f64>) -> Placement {
    let q = m.rotation.quaternion();
    Placement {
        i: to_real(q.i),
        j: to_real(q.j),
        k: to_real(q.k),
        w: to_real(q.w),
        translation: vector(&m.translation.vector),
    }
}

/// A spatial vector of the library as six doubles, angular part first.
fn six(m: Motion) -> na::Vector6<f64> {
    na::Vector6::new(
        to_float(m.angular.x),
        to_float(m.angular.y),
        to_float(m.angular.z),
        to_float(m.linear.x),
        to_float(m.linear.y),
        to_float(m.linear.z),
    )
}

/// Six doubles as a spatial vector of the library.
fn motion(v: &na::Vector6<f64>) -> Motion {
    Motion {
        angular: Vec3 { x: to_real(v[0]), y: to_real(v[1]), z: to_real(v[2]) },
        linear: Vec3 { x: to_real(v[3]), y: to_real(v[4]), z: to_real(v[5]) },
    }
}

fn parts(m: Motion) -> (na::Vector3<f64>, na::Vector3<f64>) {
    (na_vector(m.angular), na_vector(m.linear))
}

fn joined(angular: na::Vector3<f64>, linear: na::Vector3<f64>) -> Motion {
    Motion { angular: vector(&angular), linear: vector(&linear) }
}

fn na_inertia(i: &Inertia) -> na::Matrix6<f64> {
    na::Matrix6::from_iterator(i.m.iter().map(|x| to_float(*x)))
}

fn inertia(m: &na::Matrix6<f64>) -> Inertia {
    let mut r = Inertia::zero();
    for (i, x) in m.iter().enumerate() {
        r.m[i] = to_real(*x);
    }
    r
}

fn na_matrix3(m: &[Real; 9]) -> na::Matrix3<f64> {
    na::Matrix3::from_iterator(m.iter().map(|x| to_float(*x)))
}

fn matrix3(m: &na::Matrix3<f64>) -> [Real; 9] {
    let mut r = [Real::zero(); 9];
    for (i, x) in m.iter().enumerate() {
        r[i] = to_real(*x);
    }
    r
}

/// A matrix of the library as a matrix of nalgebra.
fn na_matrix(m: &Matrix) -> na::DMatrix<f64> {
    na::DMatrix::from_fn(m.rows.len(), m.cols, |r, c| to_float(m.rows[r][c]))
}

/// A matrix of nalgebra as a matrix of the library.
fn matrix(m: &na::DMatrix<f64>) -> Matrix {
    let mut r = Matrix::zeros(m.nrows(), m.ncols());
    for i in 0..m.nrows() {
        for j in 0..m.ncols() {
            r.set(i, j, to_real(m[(i, j)]));
        }
    }
    r
}

fn na_list(v: &[Real]) -> na::DVector<f64> {
    na::DVector::from_iterator(v.len(), v.iter().map(|x| to_float(*x)))
}

fn list(v: &na::DVector<f64>) -> Vec<Real> {
    v.iter().map(|x| to_real(*x)).collect()
}

fn square(d: &[Vec<Real>]) -> na::DMatrix<f64> {
    na::DMatrix::from_fn(d.len(), d.len(), |r, c| to_float(d[r][c]))
}

fn columns(u: &[Motion]) -> na::DMatrix<f64> {
    na::DMatrix::from_fn(6, u.len(), |r, c| six(u[c])[r])
}

fn skew(v: &na::Vector3<f64>) -> na::Matrix3<f64> {
    v.cross_matrix()
}

/// The placement after moving with a velocity for unit time.
fn exp(v: &na::Vector6<f64>) -> na::Isometry3<f64> {
    let w = na::Vector3::new(v[0], v[1], v[2]);
    let u = na::Vector3::new(v[3], v[4], v[5]);
    let theta = w.norm();
    let wx = skew(&w);
    let (a, b) = if theta < 1e-8 {
        (0.5 - theta * theta / 24.0, 1.0 / 6.0 - theta * theta / 120.0)
    } else {
        ((1.0 - theta.cos()) / (theta * theta), (theta - theta.sin()) / (theta * theta * theta))
    };
    let jac = na::Matrix3::identity() + wx * a + wx * wx * b;
    na::Isometry3::from_parts(
        na::Translation3::from(jac * u),
        na::UnitQuaternion::from_scaled_axis(w),
    )
}

/// The velocity that leads to a placement in unit time.
fn logarithm(m: &na::Isometry3<f64>) -> na::Vector6<f64> {
    let w = m.rotation.scaled_axis();
    let theta = w.norm();
    let wx = skew(&w);
    let c = if theta < 1e-4 {
        1.0 / 12.0 + theta * theta / 720.0
    } else {
        1.0 / (theta * theta) - (1.0 + theta.cos()) / (2.0 * theta * theta.sin())
    };
    let u = (na::Matrix3::identity() - wx * 0.5 + wx * wx * c) * m.translation.vector;
    na::Vector6::new(w.x, w.y, w.z, u.x, u.y, u.z)
}

fn free_isometry(q: &[Real; 7]) -> na::Isometry3<f64> {
    let x = to_floats(q);
    na::Isometry3::from_parts(
        na::Translation3::new(x[0], x[1], x[2]),
        na::UnitQuaternion::from_quaternion(na::Quaternion::new(x[6], x[3], x[4], x[5])),
    )
}

fn free_numbers(m: &na::Isometry3<f64>) -> [Real; 7] {
    let t = m.translation.vector;
    let q = m.rotation.quaternion();
    [to_real(t.x), to_real(t.y), to_real(t.z), to_real(q.i), to_real(q.j), to_real(q.k), to_real(q.w)]
}

impl SpatialMath for Floats {
    fn sum(&self, a: Real, b: Real) -> Real {
        to_real(to_float(a) + to_float(b))
    }

    fn difference(&self, a: Real, b: Real) -> Real {
        to_real(to_float(a) - to_float(b))
    }

    fn product(&self, a: Real, b: Real) -> Real {
        to_real(to_float(a) * to_float(b))
    }

    fn quotient(&self, a: Real, b: Real) -> Real {
        to_real(to_float(a) / to_float(b))
    }

    fn compose(&self, a: Placement, b: Placement) -> Placement {
        placement(&(isometry(a) * isometry(b)))
    }

    fn rotation(&self, axis: Vec3, angle: Real) -> Placement {
        let axis = na::Unit::new_normalize(na_vector(axis));
        placement(&na::Isometry3::from_parts(
            na::Translation3::identity(),
            na::UnitQuaternion::from_axis_angle(&axis, to_float(angle)),
        ))
    }

    fn translation(&self, axis: Vec3, distance: Real) -> Placement {
        placement(&na::Isometry3::from_parts(
            na::Translation3::from(na_vector(axis) * to_float(distance)),
            na::UnitQuaternion::identity(),
        ))
    }

    fn free(&self, translation: Vec3, i: Real, j: Real, k: Real, w: Real) -> Placement {
        let q = na::Quaternion::new(to_float(w), to_float(i), to_float(j), to_float(k));
        placement(&na::Isometry3::from_parts(
            na::Translation3::from(na_vector(translation)),
            na::UnitQuaternion::from_quaternion(q),
        ))
    }

    fn motion_sum(&self, a: Motion, b: Motion) -> Motion {
        motion(&(six(a) + six(b)))
    }

    fn motion_difference(&self, a: Motion, b: Motion) -> Motion {
        motion(&(six(a) - six(b)))
    }

    fn motion_add_scaled(&self, a: Motion, s: Motion, x: Real) -> Motion {
        motion(&(six(a) + six(s) * to_float(x)))
    }

    fn motion_quotient(&self, a: Motion, x: Real) -> Motion {
        motion(&(six(a) / to_float(x)))
    }

    fn dot3(&self, a: Vec3, b: Vec3) -> Real {
        to_real(na_vector(a).dot(&na_vector(b)))
    }

    fn motion_to_child(&self, x: Placement, v: Motion) -> Motion {
        let m = isometry(x);
        let rt = m.rotation.to_rotation_matrix().into_inner().transpose();
        let p = m.translation.vector;
        let (w, u) = parts(v);
        joined(rt * w, rt * (u - p.cross(&w)))
    }

    fn force_to_parent(&self, x: Placement, f: Motion) -> Motion {
        let m = isometry(x);
        let r = m.rotation.to_rotation_matrix().into_inner();
        let p = m.translation.vector;
        let (n, f) = parts(f);
        let rf = r * f;
        joined(r * n + p.cross(&rf), rf)
    }

    fn motion_cross(&self, v: Motion, m: Motion) -> Motion {
        let (w, u) = parts(v);
        let (a, b) = parts(m);
        joined(w.cross(&a), u.cross(&a) + w.cross(&b))
    }

    fn force_cross(&self, v: Motion, f: Motion) -> Motion {
        let (w, u) = parts(v);
        let (n, f) = parts(f);
        joined(w.cross(&n) + u.cross(&f), w.cross(&f))
    }

    fn dot(&self, a: Motion, b: Motion) -> Real {
        to_real(six(a).dot(&six(b)))
    }

    fn body_inertia(&self, link: Link) -> Inertia {
        let mass = to_float(link.mass);
        let cx = skew(&na_vector(link.center_of_mass));
        let rot = na_matrix3(&link.rotational_inertia) + cx * cx.transpose() * mass;
        let mut m = na::Matrix6::zeros();
        m.fixed_view_mut::<3, 3>(0, 0).copy_from(&rot);
        m.fixed_view_mut::<3, 3>(0, 3).copy_from(&(cx * mass));
        m.fixed_view_mut::<3, 3>(3, 0).copy_from(&(cx.transpose() * mass));
        m.fixed_view_mut::<3, 3>(3, 3).copy_from(&(na::Matrix3::identity() * mass));
        inertia(&m)
    }

    fn inertia_sum(&self, a: Inertia, b: Inertia) -> Inertia {
        inertia(&(na_inertia(&a) + na_inertia(&b)))
    }

    fn inertia_to_parent(&self, x: Placement, i: Inertia) -> Inertia {
        let m = isometry(x);
        let rt = m.rotation.to_rotation_matrix().into_inner().transpose();
        let px = skew(&m.translation.vector);
        let mut inv = na::Matrix6::zeros();
        inv.fixed_view_mut::<3, 3>(0, 0).copy_from(&rt);
        inv.fixed_view_mut::<3, 3>(3, 0).copy_from(&(-rt * px));
        inv.fixed_view_mut::<3, 3>(3, 3).copy_from(&rt);
        inertia(&(inv.transpose() * na_inertia(&i) * inv))
    }

    fn inertia_times(&self, i: Inertia, m: Motion) -> Motion {
        motion(&(na_inertia(&i) * six(m)))
    }

    fn solve(&self, d: &Vec<Vec<Real>>, e: &Vec<Real>) -> [Real; 6] {
        let x = square(d).lu().solve(&na_list(e)).expect("joint inertia is singular");
        let mut r = [Real::zero(); 6];
        for (i, y) in x.iter().enumerate() {
            r[i] = to_real(*y);
        }
        r
    }

    fn jacobian_column(&self, frame: Placement, s: Motion, target: Vec3) -> Motion {
        let m = isometry(frame);
        let (w, u) = parts(s);
        let w = m.rotation * w;
        let u = m.rotation * u;
        let lever = na_vector(target) - m.translation.vector;
        joined(w, u + w.cross(&lever))
    }
}

impl LinearMath for Floats {
    fn inner(&self, a: &Vec<Real>, b: &Vec<Real>) -> Real {
        to_real(a.iter().zip(b).map(|(x, y)| to_float(*x) * to_float(*y)).sum())
    }

    fn length(&self, a: &Vec<Real>) -> Real {
        to_real(na_list(a).norm())
    }

    fn root(&self, x: Real) -> Real {
        to_real(to_float(x).sqrt())
    }

    fn determinant(&self, a: &Matrix) -> Real {
        to_real(na_matrix(a).determinant())
    }

    fn solve_system(&self, a: &Matrix, b: &Vec<Real>) -> Option<Vec<Real>> {
        let (a, b) = (na_matrix(a), na_list(b));
        let lu = a.clone().lu();
        let x = lu.solve(&b)?;
        // What is left of the right-hand side is solved for once more.
        let rest = lu.solve(&(b - a * &x))?;
        Some(list(&(x + rest)))
    }
}

impl MassMath for Floats {
    fn world_point(&self, x: Placement, p: Vec3) -> Vec3 {
        let m = isometry(x);
        vector(&(m.rotation * na_vector(p) + m.translation.vector))
    }

    fn add_weighted(&self, p: Vec3, w: Real, x: Vec3) -> Vec3 {
        vector(&(na_vector(p) + na_vector(x) * to_float(w)))
    }

    fn offset(&self, a: Vec3, b: Vec3) -> Vec3 {
        vector(&(na_vector(a) - na_vector(b)))
    }

    fn divide(&self, p: Vec3, w: Real) -> Vec3 {
        vector(&(na_vector(p) / to_float(w)))
    }

    fn point_velocity(&self, m: Motion, r: Vec3) -> Vec3 {
        let (w, u) = parts(m);
        vector(&(u + w.cross(&na_vector(r))))
    }

    fn add_angular(
        &self,
        h: Vec3,
        x: Placement,
        link: Link,
        m: Motion,
        d: Vec3,
        v: Vec3,
    ) -> Vec3 {
        let r = isometry(x).rotation.to_rotation_matrix().into_inner();
        let i = r * na_matrix3(&link.rotational_inertia) * r.transpose();
        let own = i * na_vector(m.angular);
        let orbital = na_vector(d).cross(&na_vector(v)) * to_float(link.mass);
        vector(&(na_vector(h) + own + orbital))
    }

    fn add_rotational(&self, i: [Real; 9], x: Placement, link: Link, d: Vec3) -> [Real; 9] {
        let r = isometry(x).rotation.to_rotation_matrix().into_inner();
        let own = r * na_matrix3(&link.rotational_inertia) * r.transpose();
        let d = na_vector(d);
        let steiner = (na::Matrix3::identity() * d.norm_squared() - d * d.transpose()) * to_float(link.mass);
        matrix3(&(na_matrix3(&i) + own + steiner))
    }
}

impl PoseMath for Floats {
    fn inverse(&self, x: Placement) -> Placement {
        placement(&isometry(x).inverse())
    }

    fn log(&self, x: Placement) -> Motion {
        motion(&logarithm(&isometry(x)))
    }

    fn rotate(&self, x: Placement, v: Vec3) -> Vec3 {
        vector(&(isometry(x).rotation * na_vector(v)))
    }

    fn rotate_back(&self, x: Placement, v: Vec3) -> Vec3 {
        vector(&(isometry(x).rotation.inverse() * na_vector(v)))
    }

    fn orientation_error(&self, current: Placement, target: Placement) -> Vec3 {
        let e = isometry(target).rotation * isometry(current).rotation.inverse();
        vector(&e.scaled_axis())
    }
}

impl FreeMotion for Floats {
    fn integrate_free(&self, q: [Real; 7], v: [Real; 6], dt: Real) -> [Real; 7] {
        let step = na::Vector6::from_iterator(v.iter().map(|x| to_float(*x) * to_float(dt)));
        free_numbers(&(free_isometry(&q) * exp(&step)))
    }

    fn normalize_free(&self, q: [Real; 7]) -> [Real; 7] {
        free_numbers(&free_isometry(&q))
    }

    fn difference_free(&self, from: [Real; 7], to: [Real; 7]) -> [Real; 6] {
        let v = logarithm(&(free_isometry(&from).inverse() * free_isometry(&to)));
        [to_real(v[0]), to_real(v[1]), to_real(v[2]), to_real(v[3]), to_real(v[4]), to_real(v[5])]
    }
}

impl RobotMath for Floats {}

impl PowerMath for Floats {
    fn power(&self, x: Real, n: usize) -> Real {
        to_real(to_float(x).powi(n as i32))
    }
}


fn moved(model: &Model, q: &[Real], i: usize, step: f64) -> Vec<Real> {
    let mut v = vec![Real::zero(); model.nv];
    v[i] = to_real(1.0);
    integrate(&Floats, model, q, &v, to_real(step))
}

fn slopes(n: usize, step: f64, f: impl Fn(usize, f64) -> Vec<Real>) -> Matrix {
    let mut m = Matrix::zeros(n, n);
    for c in 0..n {
        let plus = f(c, step);
        let minus = f(c, -step);
        for r in 0..n {
            m.set(r, c, to_real((to_float(plus[r]) - to_float(minus[r])) / (2.0 * step)));
        }
    }
    m
}

impl DerivativeMath for Floats {
    fn rnea_derivatives(&self, model: &Model, q: &[Real], v: &[Real], a: &Vec<Real>) -> RneaDerivatives {
        let n = model.nv;
        let shifted = |i: usize, step: f64| {
            let mut w = v.to_vec();
            w[i] = to_real(to_float(w[i]) + step);
            w
        };
        RneaDerivatives {
            dtau_dq: slopes(n, 1e-6, |i, s| rnea::rnea(self, model, &moved(model, q, i, s), v, a)),
            dtau_dv: slopes(n, 1e-6, |i, s| rnea::rnea(self, model, q, &shifted(i, s), a)),
            dtau_da: crba::crba(self, model, q),
        }
    }

    fn solve_positive(&self, m: &Matrix, b: &Vec<Real>) -> Option<Vec<Real>> {
        na_matrix(m).cholesky().map(|c| list(&c.solve(&na_list(b))))
    }
}

impl QpMath for Floats {
    fn solve_qp(
        &self,
        h: &Matrix,
        c: &Vec<Real>,
        bounds: &Option<(Matrix, Vec<Real>)>,
        _start: &Vec<Real>,
        max_iters: usize,
        _solver: QpSolver,
    ) -> Option<Vec<Real>> {
        let chol = na_matrix(h).cholesky()?;
        let c = na_list(c);
        let free = -chol.solve(&c);
        let (a, b) = match bounds {
            None => return Some(list(&free)),
            Some((a, b)) => (na_matrix(a), na_list(b)),
        };
        let gain = chol.solve(&a.transpose());
        let p = &a * &gain;
        let d = &b - &a * &free;
        let mut lambda = na::DVector::<f64>::zeros(b.len());
        for _ in 0..max_iters.max(1) * 10 {
            let mut change = 0.0_f64;
            for i in 0..b.len() {
                if p[(i, i)] <= 0.0 {
                    continue;
                }
                let slack = p.row(i).transpose().dot(&lambda) + d[i];
                let next = (lambda[i] - slack / p[(i, i)]).max(0.0);
                change = change.max((next - lambda[i]).abs());
                lambda[i] = next;
            }
            if change < 1e-12 {
                break;
            }
        }
        Some(list(&(free - gain * lambda)))
    }
}

fn parry_shape(object: &GeometryObject) -> Option<SharedShape> {
    match &object.shape {
        LibShape::Box { x, y, z } => Some(SharedShape::new(Cuboid::new(na::Vector3::new(
            to_float(*x) * 0.5,
            to_float(*y) * 0.5,
            to_float(*z) * 0.5,
        )))),
        LibShape::Sphere { radius } => Some(SharedShape::new(Ball::new(to_float(*radius)))),
        LibShape::Cylinder { radius, length } => Some(SharedShape::new(Cylinder::new(
            to_float(*length) * 0.5,
            to_float(*radius),
        ))),
        LibShape::Capsule { radius, length } => Some(SharedShape::new(Capsule::new_y(
            to_float(*length) * 0.5,
            to_float(*radius),
        ))),
        LibShape::Cone { radius, length } => Some(SharedShape::new(Cone::new(
            to_float(*length) * 0.5,
            to_float(*radius),
        ))),
        LibShape::Mesh { scale, .. } => {
            let mesh = object.mesh_data.as_ref()?;
            let n = mesh.vertices.len();
            if mesh.indices.is_empty() || mesh.indices.iter().flatten().any(|v| *v as usize >= n) {
                return None;
            }
            let (x, y, z) = (to_float(scale.x), to_float(scale.y), to_float(scale.z));
            let vertices = mesh
                .vertices
                .iter()
                .map(|p| na::Point3::new(to_float(p.x) * x, to_float(p.y) * y, to_float(p.z) * z))
                .collect();
            Some(SharedShape::trimesh(vertices, mesh.indices.clone()))
        }
    }
}

impl Proximity for Floats {
    fn intersect(&self, a: Placement, oa: &GeometryObject, b: Placement, ob: &GeometryObject) -> Option<bool> {
        let (sa, sb) = (parry_shape(oa)?, parry_shape(ob)?);
        query::intersection_test(&isometry(a), &*sa, &isometry(b), &*sb).ok()
    }

    fn separation(&self, a: Placement, oa: &GeometryObject, b: Placement, ob: &GeometryObject) -> Option<Real> {
        let (sa, sb) = (parry_shape(oa)?, parry_shape(ob)?);
        query::distance(&isometry(a), &*sa, &isometry(b), &*sb).ok().map(to_real)
    }

    fn add_half_square(&self, total: Real, x: Real) -> Real {
        to_real(to_float(total) + 0.5 * to_float(x) * to_float(x))
    }
}

// ── The same functions on doubles ──

type Iso = na::Isometry3<f64>;

fn se3_identity() -> Iso {
    Iso::identity()
}

fn se3_translation(m: &Iso) -> Vector3<f64> {
    m.translation.vector
}

fn se3_rotation_matrix(m: &Iso) -> Matrix3<f64> {
    m.rotation.to_rotation_matrix().into_inner()
}

fn se3_to_homogeneous(m: &Iso) -> na::Matrix4<f64> {
    m.to_homogeneous()
}

fn se3_act_on_point(m: &Iso, p: &Vector3<f64>) -> Vector3<f64> {
    m.rotation * p + m.translation.vector
}

fn se3_from_rotation_and_translation(r: &Rotation3<f64>, t: &Vector3<f64>) -> Iso {
    Iso::from_parts(na::Translation3::from(*t), UnitQuaternion::from_rotation_matrix(r))
}

trait Flat {
    fn flat(&self) -> Vec<f64>;
}

impl Flat for f64 {
    fn flat(&self) -> Vec<f64> {
        vec![*self]
    }
}

impl<R: na::Dim, C: na::Dim, S: na::RawStorage<f64, R, C>> Flat for na::Matrix<f64, R, C, S> {
    fn flat(&self) -> Vec<f64> {
        let mut v = vec![self.nrows() as f64, self.ncols() as f64];
        v.extend(self.iter());
        v
    }
}

fn near<A: Flat, B: Flat>(a: A, b: B, epsilon: f64) {
    let (x, y) = (a.flat(), b.flat());
    assert_eq!(x.len(), y.len());
    for (p, q) in x.iter().zip(&y) {
        let d = (p - q).abs();
        let relative = f64::EPSILON * p.abs().max(q.abs());
        assert!(p == q || d <= epsilon || d <= relative, "{p} is not near {q}");
    }
}

#[derive(Clone, Debug)]
struct LinkInertia {
    mass: f64,
    center_of_mass: Vector3<f64>,
    rotational_inertia: Matrix3<f64>,
}

impl LinkInertia {
    fn zero() -> Self {
        LinkInertia {
            mass: 0.0,
            center_of_mass: Vector3::zeros(),
            rotational_inertia: Matrix3::zeros(),
        }
    }

    fn lib(&self) -> Link {
        Link {
            mass: to_real(self.mass),
            center_of_mass: vector(&self.center_of_mass),
            rotational_inertia: matrix3(&self.rotational_inertia),
        }
    }
}

struct ModelBuilder {
    inner: Builder,
}

impl ModelBuilder {
    fn new() -> Self {
        ModelBuilder { inner: Builder::new() }
    }

    fn from_model(m: &Model) -> Self {
        let mut inner = Builder::new().gravity(m.gravity);
        for i in 1..m.joints.len() {
            let j = &m.joints[i];
            inner = inner.add_joint(&j.name, j.parent, j.joint_type, j.placement, m.inertias[i]);
        }
        ModelBuilder { inner }
    }

    fn name(self, _name: &str) -> Self {
        self
    }

    fn gravity(self, g: Vector3<f64>) -> Self {
        ModelBuilder { inner: self.inner.gravity(vector(&g)) }
    }

    fn add_joint(self, name: &str, parent: usize, kind: JointType, at: Iso, link: LinkInertia) -> Self {
        ModelBuilder { inner: self.inner.add_joint(name, parent, kind, placement(&at), link.lib()) }
    }

    fn build(self) -> Model {
        self.inner.build()
    }
}

fn forward(joint: &JointType, q: &[f64]) -> Iso {
    isometry(joint.forward(&Floats, &to_reals(q), 0))
}

#[allow(non_snake_case)]
struct Data {
    oMi: Vec<Iso>,
    v: Vec<na::Vector6<f64>>,
    a: Vec<na::Vector6<f64>>,
    raw: LibData,
}

fn data(raw: LibData) -> Data {
    Data {
        oMi: raw.oMi.iter().map(|x| isometry(*x)).collect(),
        v: raw.v.iter().map(|x| six(*x)).collect(),
        a: raw.a.iter().map(|x| six(*x)).collect(),
        raw,
    }
}

fn forward_kinematics(model: &Model, q: &[f64]) -> Data {
    data(fk::forward_kinematics(&Floats, model, &to_reals(q)))
}

fn forward_kinematics_velocity(model: &Model, q: &[f64], v: &[f64]) -> Data {
    data(fk::forward_kinematics_velocity(&Floats, model, &to_reals(q), &to_reals(v)))
}

fn forward_kinematics_acceleration(model: &Model, q: &[f64], v: &[f64], a: &[f64]) -> Data {
    data(fk::forward_kinematics_acceleration(&Floats, model, &to_reals(q), &to_reals(v), &to_reals(a)))
}

fn dvector(x: &[Real]) -> DVector<f64> {
    na_list(x)
}

fn aba(model: &Model, q: &[f64], v: &[f64], tau: &[f64]) -> DVector<f64> {
    dvector(&aba::aba(&Floats, model, &to_reals(q), &to_reals(v), &to_reals(tau)))
}

fn compute_minv_times_vec(model: &Model, q: &[f64], tau: &[f64]) -> DVector<f64> {
    dvector(&aba::compute_minv_times_vec(&Floats, model, &to_reals(q), &to_reals(tau)))
}

fn compute_minv(model: &Model, q: &[f64]) -> DMatrix<f64> {
    na_matrix(&aba::compute_minv(&Floats, model, &to_reals(q)))
}

fn crba(model: &Model, q: &[f64]) -> DMatrix<f64> {
    na_matrix(&crba::crba(&Floats, model, &to_reals(q)))
}

fn rnea(model: &Model, q: &[f64], v: &[f64], a: &[f64]) -> DVector<f64> {
    dvector(&rnea::rnea(&Floats, model, &to_reals(q), &to_reals(v), &to_reals(a)))
}

fn nonlinear_effects(model: &Model, q: &[f64], v: &[f64]) -> DVector<f64> {
    dvector(&rnea::nonlinear_effects(&Floats, model, &to_reals(q), &to_reals(v)))
}

fn compute_gravity(model: &Model, q: &[f64]) -> DVector<f64> {
    dvector(&rnea::compute_gravity(&Floats, model, &to_reals(q)))
}

fn compute_joint_jacobian(model: &Model, q: &[f64], joint: usize) -> DMatrix<f64> {
    columns(&jacobian::compute_joint_jacobian(&Floats, model, &to_reals(q), joint))
}

fn compute_joint_jacobian_from_data(model: &Model, _q: &[f64], d: &Data, joint: usize) -> DMatrix<f64> {
    columns(&jacobian::compute_joint_jacobian_from_data(&Floats, model, &d.raw, joint))
}

fn compute_relative_jacobian(model: &Model, q: &[f64], base: usize, ee: usize) -> DMatrix<f64> {
    columns(&jacobian::compute_relative_jacobian(&Floats, model, &to_reals(q), base, ee))
}

fn compute_masked_jacobian(model: &Model, q: &[f64], joint: usize, mask: &[usize]) -> DMatrix<f64> {
    columns(&jacobian::compute_masked_jacobian(&Floats, model, &to_reals(q), joint, mask))
}

fn compute_relative_masked_jacobian(
    model: &Model,
    q: &[f64],
    base: usize,
    ee: usize,
    mask: &[usize],
) -> DMatrix<f64> {
    columns(&jacobian::compute_relative_masked_jacobian(&Floats, model, &to_reals(q), base, ee, mask))
}

fn compute_joint_jacobian_local(model: &Model, q: &[f64], joint: usize) -> DMatrix<f64> {
    columns(&jacobian::compute_joint_jacobian_local(&Floats, model, &to_reals(q), joint))
}

fn compute_joint_jacobian_local_from_data(model: &Model, _q: &[f64], d: &Data, joint: usize) -> DMatrix<f64> {
    columns(&jacobian::compute_joint_jacobian_local_from_data(&Floats, model, &d.raw, joint))
}

fn compute_joint_jacobian_time_derivative(model: &Model, q: &[f64], v: &[f64], joint: usize) -> DMatrix<f64> {
    columns(&jacobian::compute_joint_jacobian_time_derivative(
        &Floats,
        model,
        &to_reals(q),
        &to_reals(v),
        joint,
    ))
}

fn compute_jacobian_dot_times_v(model: &Model, q: &[f64], v: &[f64], joint: usize) -> na::Vector6<f64> {
    six(jacobian::compute_jacobian_dot_times_v(&Floats, model, &to_reals(q), &to_reals(v), joint))
}

#[derive(Clone, Debug)]
struct Frame {
    name: String,
    parent_joint: usize,
    placement: Iso,
}

impl Frame {
    fn lib(&self) -> LibFrame {
        LibFrame {
            name: self.name.clone(),
            parent_joint: self.parent_joint,
            placement: placement(&self.placement),
        }
    }
}

struct FrameModel {
    frames: Vec<Frame>,
    inner: LibFrameModel,
}

fn frame(f: &LibFrame) -> Frame {
    Frame {
        name: f.name.clone(),
        parent_joint: f.parent_joint,
        placement: isometry(f.placement),
    }
}

impl FrameModel {
    fn new() -> Self {
        FrameModel { frames: Vec::new(), inner: LibFrameModel::new() }
    }

    fn add_frame(&mut self, name: &str, parent_joint: usize, at: Iso) {
        self.inner.add_frame(name, parent_joint, placement(&at));
        self.frames = self.inner.frames.iter().map(frame).collect();
    }

    fn find(&self, name: &str) -> Option<Frame> {
        self.inner.find(name).map(frame)
    }

    fn find_index(&self, name: &str) -> Option<usize> {
        self.inner.find_index(name)
    }
}

fn compute_frame_placement_from_data(d: &Data, f: &Frame) -> Iso {
    isometry(frames::compute_frame_placement_from_data(&Floats, &d.raw, &f.lib()))
}

fn compute_frame_placement(model: &Model, q: &[f64], f: &Frame) -> Iso {
    isometry(frames::compute_frame_placement(&Floats, model, &to_reals(q), &f.lib()))
}

fn compute_all_frame_placements(model: &Model, q: &[f64], fm: &FrameModel) -> Vec<Iso> {
    let all = frames::compute_all_frame_placements(&Floats, model, &to_reals(q), &fm.inner);
    all.iter().map(|x| isometry(*x)).collect()
}

fn compute_frame_jacobian(model: &Model, q: &[f64], f: &Frame) -> DMatrix<f64> {
    columns(&frames::compute_frame_jacobian(&Floats, model, &to_reals(q), &f.lib()))
}

fn compute_frame_jacobian_from_data(model: &Model, _q: &[f64], d: &Data, f: &Frame) -> DMatrix<f64> {
    columns(&frames::compute_frame_jacobian_from_data(&Floats, model, &d.raw, &f.lib()))
}

struct AbaDerivatives {
    ddq_dq: DMatrix<f64>,
    ddq_dv: DMatrix<f64>,
    ddq_dtau: DMatrix<f64>,
}

fn compute_aba_derivatives(model: &Model, q: &[f64], v: &[f64], tau: &[f64]) -> AbaDerivatives {
    let d = aba_derivatives::compute_aba_derivatives(&Floats, model, &to_reals(q), &to_reals(v), &to_reals(tau))
        .expect("mass matrix is positive definite");
    AbaDerivatives {
        ddq_dq: na_matrix(&d.ddq_dq),
        ddq_dv: na_matrix(&d.ddq_dv),
        ddq_dtau: na_matrix(&d.ddq_dtau),
    }
}

#[derive(Clone, Debug)]
struct JointLimits {
    q_min: Vec<f64>,
    q_max: Vec<f64>,
    v_max: Vec<f64>,
    tau_max: Vec<f64>,
}

impl JointLimits {
    fn unbounded(model: &Model) -> Self {
        let l = LibLimits::unbounded(model);
        JointLimits {
            q_min: to_floats(&l.q_min),
            q_max: to_floats(&l.q_max),
            v_max: to_floats(&l.v_max),
            tau_max: to_floats(&l.tau_max),
        }
    }

    fn lib(&self) -> LibLimits {
        LibLimits {
            q_min: to_reals(&self.q_min),
            q_max: to_reals(&self.q_max),
            v_max: to_reals(&self.v_max),
            tau_max: to_reals(&self.tau_max),
        }
    }
}

struct GravityLoad {
    gravity_torque: f64,
    tau_max: f64,
}

fn gravity_loads(model: &Model, q: &[f64], limits: &JointLimits) -> Vec<GravityLoad> {
    analysis::gravity_loads(&Floats, model, &to_reals(q), &limits.lib())
        .iter()
        .map(|l| GravityLoad { gravity_torque: to_float(l.gravity_torque), tau_max: to_float(l.tau_max) })
        .collect()
}

struct PayloadCapacity {
    max_mass_kg: f64,
    limiting_joint: usize,
}

fn payload_capacity(model: &Model, q: &[f64], ee: usize, limits: &JointLimits) -> Option<PayloadCapacity> {
    analysis::payload_capacity(&Floats, model, &to_reals(q), ee, &limits.lib()).map(|c| PayloadCapacity {
        max_mass_kg: to_float(c.max_mass_kg),
        limiting_joint: c.limiting_joint,
    })
}

fn payload_utilisation(
    model: &Model,
    q: &[f64],
    ee: usize,
    mass_kg: f64,
    limits: &JointLimits,
) -> Vec<(usize, f64)> {
    analysis::payload_utilisation(&Floats, model, &to_reals(q), ee, to_real(mass_kg), &limits.lib())
        .iter()
        .map(|(i, x)| (*i, to_float(*x)))
        .collect()
}

fn payload_tau_per_kg(model: &Model, q: &[f64], ee: usize) -> Vec<f64> {
    to_floats(&analysis::payload_tau_per_kg(&Floats, model, &to_reals(q), ee))
}

fn total_mass(model: &Model) -> f64 {
    to_float(centroidal::total_mass(&Floats, model))
}

fn compute_com(model: &Model, q: &[f64]) -> Vector3<f64> {
    na_vector(centroidal::compute_com(&Floats, model, &to_reals(q)))
}

fn compute_com_jacobian(model: &Model, q: &[f64]) -> DMatrix<f64> {
    let j = centroidal::compute_com_jacobian(&Floats, model, &to_reals(q));
    DMatrix::from_fn(3, j.len(), |r, c| na_vector(j[c])[r])
}

fn compute_com_velocity(model: &Model, q: &[f64], v: &[f64]) -> Vector3<f64> {
    na_vector(centroidal::compute_com_velocity(&Floats, model, &to_reals(q), &to_reals(v)))
}

fn compute_centroidal_momentum_matrix(model: &Model, q: &[f64]) -> DMatrix<f64> {
    columns(&centroidal::compute_centroidal_momentum_matrix(&Floats, model, &to_reals(q)))
}

fn compute_momentum(model: &Model, q: &[f64], v: &[f64]) -> na::Vector6<f64> {
    six(centroidal::compute_momentum(&Floats, model, &to_reals(q), &to_reals(v)))
}

fn compute_centroidal_inertia(model: &Model, q: &[f64]) -> na::Matrix6<f64> {
    na_inertia(&centroidal::compute_centroidal_inertia(&Floats, model, &to_reals(q)))
}

fn compute_centroidal_momentum_matrix_time_derivative(model: &Model, q: &[f64], v: &[f64]) -> DMatrix<f64> {
    columns(&centroidal::compute_centroidal_momentum_matrix_time_derivative(
        &Floats,
        model,
        &to_reals(q),
        &to_reals(v),
    ))
}

fn compute_momentum_rate(model: &Model, q: &[f64], v: &[f64], a: &[f64]) -> na::Vector6<f64> {
    six(centroidal::compute_momentum_rate(&Floats, model, &to_reals(q), &to_reals(v), &to_reals(a)))
}

struct ConstrainedDynamicsResult {
    qdd: DVector<f64>,
    lambda: DVector<f64>,
}

fn constrained_forward_dynamics(
    model: &Model,
    q: &[f64],
    v: &[f64],
    tau: &[f64],
    jc: &DMatrix<f64>,
    gamma: &DVector<f64>,
) -> ConstrainedDynamicsResult {
    let r = constrained::constrained_forward_dynamics(
        &Floats,
        model,
        &to_reals(q),
        &to_reals(v),
        &to_reals(tau),
        &matrix(jc),
        &list(gamma),
    )
    .expect("system is regular");
    ConstrainedDynamicsResult { qdd: dvector(&r.qdd), lambda: dvector(&r.lambda) }
}

struct ImpactResult {
    v_post: DVector<f64>,
    impulse: DVector<f64>,
}

fn impact_dynamics(model: &Model, q: &[f64], v_pre: &[f64], jc: &DMatrix<f64>, e: f64) -> ImpactResult {
    let r = constrained::impact_dynamics(&Floats, model, &to_reals(q), &to_reals(v_pre), &matrix(jc), to_real(e))
        .expect("system is regular");
    ImpactResult { v_post: dvector(&r.v_post), impulse: dvector(&r.impulse) }
}

fn compute_coriolis_matrix(model: &Model, q: &[f64], v: &[f64]) -> DMatrix<f64> {
    na_matrix(&coriolis::compute_coriolis_matrix(&Floats, model, &to_reals(q), &to_reals(v)))
}

// ── Shapes ──

enum GeometryShape {
    Box { x: f64, y: f64, z: f64 },
    Sphere { radius: f64 },
    Cylinder { radius: f64, length: f64 },
    Capsule { radius: f64, length: f64 },
    Cone { radius: f64, length: f64 },
    Mesh { filename: String, scale: Vector3<f64> },
}

impl GeometryShape {
    fn lib(&self) -> LibShape {
        match self {
            GeometryShape::Box { x, y, z } => LibShape::Box { x: to_real(*x), y: to_real(*y), z: to_real(*z) },
            GeometryShape::Sphere { radius } => LibShape::Sphere { radius: to_real(*radius) },
            GeometryShape::Cylinder { radius, length } => {
                LibShape::Cylinder { radius: to_real(*radius), length: to_real(*length) }
            }
            GeometryShape::Capsule { radius, length } => {
                LibShape::Capsule { radius: to_real(*radius), length: to_real(*length) }
            }
            GeometryShape::Cone { radius, length } => {
                LibShape::Cone { radius: to_real(*radius), length: to_real(*length) }
            }
            GeometryShape::Mesh { filename, scale } => {
                LibShape::Mesh { filename: filename.clone(), scale: vector(scale) }
            }
        }
    }
}

fn object(name: &str, parent_joint: usize, at: Iso, shape: GeometryShape) -> GeometryObject {
    GeometryObject {
        name: name.to_string(),
        parent_joint,
        placement: placement(&at),
        shape: shape.lib(),
        mesh_path: None,
        mesh_scale: None,
        mesh_data: None,
    }
}

fn collision_pairs(model: &Model, gm: &GeometryModel, q: &[f64], ignore: bool) -> Vec<CollisionPair> {
    collision::collision_pairs(&Floats, model, gm, &to_reals(q), ignore)
}

fn has_collision(model: &Model, gm: &GeometryModel, q: &[f64], ignore: bool) -> bool {
    collision::has_collision(&Floats, model, gm, &to_reals(q), ignore)
}

fn minimum_distance(model: &Model, gm: &GeometryModel, q: &[f64], ignore: bool) -> Option<f64> {
    collision::minimum_distance(&Floats, model, gm, &to_reals(q), ignore).map(to_float)
}

fn has_collision_acm(
    model: &Model,
    gm: &GeometryModel,
    q: &[f64],
    acm: Option<&AllowedCollisionMatrix>,
) -> bool {
    collision::has_collision_acm(&Floats, model, gm, &to_reals(q), acm)
}

fn minimum_distance_acm(
    model: &Model,
    gm: &GeometryModel,
    q: &[f64],
    acm: Option<&AllowedCollisionMatrix>,
) -> Option<(CollisionPair, f64)> {
    collision::minimum_distance_acm(&Floats, model, gm, &to_reals(q), acm).map(|(p, d)| (p, to_float(d)))
}

fn collision_potential(
    model: &Model,
    gm: &GeometryModel,
    q: &[f64],
    acm: Option<&AllowedCollisionMatrix>,
    margin: f64,
) -> f64 {
    to_float(collision::collision_potential(&Floats, model, gm, &to_reals(q), acm, to_real(margin)))
}

// ── Inverse kinematics ──

#[derive(Clone, Debug)]
enum Damping {
    Fixed(f64),
    AdaptiveManipulability { lambda_min: f64, lambda_max: f64, manipulability_threshold: f64 },
}

impl Damping {
    fn lib(&self) -> LibDamping {
        match self {
            Damping::Fixed(x) => LibDamping::Fixed(to_real(*x)),
            Damping::AdaptiveManipulability { lambda_min, lambda_max, manipulability_threshold } => {
                LibDamping::AdaptiveManipulability {
                    lambda_min: to_real(*lambda_min),
                    lambda_max: to_real(*lambda_max),
                    manipulability_threshold: to_real(*manipulability_threshold),
                }
            }
        }
    }
}

fn damping(d: &LibDamping) -> Damping {
    match d {
        LibDamping::Fixed(x) => Damping::Fixed(to_float(*x)),
        LibDamping::AdaptiveManipulability { lambda_min, lambda_max, manipulability_threshold } => {
            Damping::AdaptiveManipulability {
                lambda_min: to_float(*lambda_min),
                lambda_max: to_float(*lambda_max),
                manipulability_threshold: to_float(*manipulability_threshold),
            }
        }
    }
}

#[derive(Clone, Debug)]
struct JointWeights {
    weights: Vec<f64>,
}

fn lib_weights(w: &Option<JointWeights>) -> Option<LibWeights> {
    w.as_ref().map(|w| LibWeights { weights: to_reals(&w.weights) })
}

#[derive(Clone, Debug)]
struct IkConfig {
    max_iters: usize,
    tol_error: f64,
    tol_step: f64,
    step_size: f64,
    damping: Damping,
    joint_limits: Option<JointLimits>,
    solver_method: SolverMethod,
    joint_weights: Option<JointWeights>,
}

impl Default for IkConfig {
    fn default() -> Self {
        let c = LibIkConfig::default();
        assert!(c.joint_limits.is_none() && c.joint_weights.is_none());
        IkConfig {
            max_iters: c.max_iters,
            tol_error: to_float(c.tol_error),
            tol_step: to_float(c.tol_step),
            step_size: to_float(c.step_size),
            damping: damping(&c.damping),
            joint_limits: None,
            solver_method: c.solver_method,
            joint_weights: None,
        }
    }
}

impl IkConfig {
    fn lib(&self) -> LibIkConfig {
        LibIkConfig {
            max_iters: self.max_iters,
            tol_error: to_real(self.tol_error),
            tol_step: to_real(self.tol_step),
            step_size: to_real(self.step_size),
            damping: self.damping.lib(),
            joint_limits: self.joint_limits.as_ref().map(|l| l.lib()),
            solver_method: self.solver_method,
            joint_weights: lib_weights(&self.joint_weights),
        }
    }
}

struct IkResult {
    q: Vec<f64>,
    final_error_norm: f64,
    status: IkStatus,
}

fn ik_result(r: LibIkResult) -> IkResult {
    IkResult { q: to_floats(&r.q), final_error_norm: to_float(r.final_error_norm), status: r.status }
}

fn solve_joint_position_ik(
    model: &Model,
    q0: &[f64],
    joint: usize,
    target: Vector3<f64>,
    cfg: &IkConfig,
) -> IkResult {
    let t = vector(&target);
    ik_result(ik::solve_joint_position_ik(&Floats, model, &to_reals(q0), joint, t, &cfg.lib()))
}

fn solve_joint_orientation_ik(
    model: &Model,
    q0: &[f64],
    joint: usize,
    target: UnitQuaternion<f64>,
    cfg: &IkConfig,
) -> IkResult {
    let t = placement(&Iso::from_parts(na::Translation3::identity(), target));
    ik_result(ik::solve_joint_orientation_ik(&Floats, model, &to_reals(q0), joint, t, &cfg.lib()))
}

fn solve_joint_pose_ik(model: &Model, q0: &[f64], joint: usize, target: Iso, cfg: &IkConfig) -> IkResult {
    let t = placement(&target);
    ik_result(ik::solve_joint_pose_ik(&Floats, model, &to_reals(q0), joint, t, &cfg.lib()))
}

fn solve_joint_position_ik_with_posture(
    model: &Model,
    q0: &[f64],
    joint: usize,
    target: Vector3<f64>,
    posture: &[f64],
    gain: f64,
    cfg: &IkConfig,
) -> IkResult {
    ik_result(ik_nullspace::solve_joint_position_ik_with_posture(
        &Floats,
        model,
        &to_reals(q0),
        joint,
        vector(&target),
        &to_reals(posture),
        to_real(gain),
        &cfg.lib(),
    ))
}

fn solve_two_task_position_ik(
    model: &Model,
    q0: &[f64],
    first: usize,
    first_target: Vector3<f64>,
    second: usize,
    second_target: Vector3<f64>,
    weight: f64,
    cfg: &IkConfig,
) -> IkResult {
    ik_result(ik_nullspace::solve_two_task_position_ik(
        &Floats,
        model,
        &to_reals(q0),
        first,
        vector(&first_target),
        second,
        vector(&second_target),
        to_real(weight),
        &cfg.lib(),
    ))
}

struct CollisionConfig {
    safety_margin: f64,
    collision_weight: f64,
    fd_eps: f64,
    acm: Option<AllowedCollisionMatrix>,
}

impl Default for CollisionConfig {
    fn default() -> Self {
        let c = LibCollisionConfig::default();
        CollisionConfig {
            safety_margin: to_float(c.safety_margin),
            collision_weight: to_float(c.collision_weight),
            fd_eps: to_float(c.fd_eps),
            acm: c.acm,
        }
    }
}

fn solve_joint_position_ik_with_collision_avoidance(
    model: &Model,
    gm: &GeometryModel,
    q0: &[f64],
    joint: usize,
    target: Vector3<f64>,
    cc: &CollisionConfig,
    cfg: &IkConfig,
) -> IkResult {
    let settings = LibCollisionConfig {
        safety_margin: to_real(cc.safety_margin),
        collision_weight: to_real(cc.collision_weight),
        fd_eps: to_real(cc.fd_eps),
        acm: cc.acm.as_ref().map(|_| AllowedCollisionMatrix::from_adjacent_links(model, gm)),
    };
    ik_result(ik_nullspace::solve_joint_position_ik_with_collision_avoidance(
        &Floats,
        model,
        gm,
        &to_reals(q0),
        joint,
        vector(&target),
        &settings,
        &cfg.lib(),
    ))
}

fn configuration_is_collision_free(
    model: &Model,
    gm: &GeometryModel,
    q: &[f64],
    acm: Option<&AllowedCollisionMatrix>,
) -> bool {
    ik::configuration_is_collision_free(&Floats, model, gm, &to_reals(q), acm)
}

#[derive(Clone, Debug)]
struct DiffIkConfig {
    gain: f64,
    max_joint_step: f64,
    damping: Damping,
    solver_method: SolverMethod,
    joint_weights: Option<JointWeights>,
    task_projection: Option<DMatrix<f64>>,
}

impl Default for DiffIkConfig {
    fn default() -> Self {
        let c = LibDiffIkConfig::default();
        assert!(c.joint_weights.is_none() && c.task_projection.is_none());
        DiffIkConfig {
            gain: to_float(c.gain),
            max_joint_step: to_float(c.max_joint_step),
            damping: damping(&c.damping),
            solver_method: c.solver_method,
            joint_weights: None,
            task_projection: None,
        }
    }
}

impl DiffIkConfig {
    fn lib(&self) -> LibDiffIkConfig {
        LibDiffIkConfig {
            gain: to_real(self.gain),
            max_joint_step: to_real(self.max_joint_step),
            damping: self.damping.lib(),
            solver_method: self.solver_method,
            joint_weights: lib_weights(&self.joint_weights),
            task_projection: self.task_projection.as_ref().map(matrix),
        }
    }
}

struct DiffIkResult {
    dq: Vec<f64>,
    error_before: f64,
}

fn differential_ik_step(
    jac: &DMatrix<f64>,
    ee: &Vector3<f64>,
    target: &Vector3<f64>,
    cfg: &DiffIkConfig,
) -> DiffIkResult {
    let r = ik_differential::differential_ik_step(
        &Floats,
        &matrix(jac),
        &vector(ee),
        &vector(target),
        &cfg.lib(),
    );
    DiffIkResult { dq: to_floats(&r.dq), error_before: to_float(r.error_before) }
}

struct DiffIkConstraint {
    jacobian: DMatrix<f64>,
    error: DVector<f64>,
    weight: f64,
}

fn differential_ik_step_with_constraints(
    jac: &DMatrix<f64>,
    ee: &Vector3<f64>,
    target: &Vector3<f64>,
    constraints: &[DiffIkConstraint],
    cfg: &DiffIkConfig,
) -> DiffIkResult {
    let all = constraints
        .iter()
        .map(|c| LibDiffIkConstraint {
            jacobian: matrix(&c.jacobian),
            error: list(&c.error),
            weight: to_real(c.weight),
        })
        .collect();
    let r = ik_differential::differential_ik_step_with_constraints(
        &Floats,
        &matrix(jac),
        &vector(ee),
        &vector(target),
        &all,
        &cfg.lib(),
    );
    DiffIkResult { dq: to_floats(&r.dq), error_before: to_float(r.error_before) }
}

// ── Constraints ──

#[derive(Clone)]
struct RigidConstraint {
    frame1: Frame,
    frame2: Frame,
    full: bool,
    desired: Option<Iso>,
    reference: Option<ReferenceFrame>,
}

impl RigidConstraint {
    fn pose(frame1: Frame, frame2: Frame) -> Self {
        RigidConstraint { frame1, frame2, full: true, desired: None, reference: None }
    }

    fn position(frame1: Frame, frame2: Frame) -> Self {
        RigidConstraint { frame1, frame2, full: false, desired: None, reference: None }
    }

    fn with_desired_placement(mut self, m: Iso) -> Self {
        self.desired = Some(m);
        self
    }

    fn with_reference_frame(mut self, r: ReferenceFrame) -> Self {
        self.reference = Some(r);
        self
    }

    fn lib(&self) -> LibConstraint {
        let (a, b) = (self.frame1.lib(), self.frame2.lib());
        let mut c = if self.full { LibConstraint::pose(a, b) } else { LibConstraint::position(a, b) };
        if let Some(m) = &self.desired {
            c = c.with_desired_placement(placement(m));
        }
        if let Some(r) = self.reference {
            c = c.with_reference_frame(r);
        }
        c
    }
}

struct ConstraintModel {
    inner: LibConstraintModel,
}

impl ConstraintModel {
    fn new() -> Self {
        ConstraintModel { inner: LibConstraintModel::new() }
    }

    fn from_constraints(constraints: Vec<RigidConstraint>) -> Self {
        let all = constraints.iter().map(|c| c.lib()).collect();
        ConstraintModel { inner: LibConstraintModel::from_constraints(all) }
    }

    fn add(&mut self, c: RigidConstraint) {
        self.inner.add(c.lib());
    }

    fn total_dim(&self) -> usize {
        self.inner.total_dim()
    }

    fn len(&self) -> usize {
        self.inner.len()
    }

    fn is_empty(&self) -> bool {
        self.inner.is_empty()
    }
}

fn compute_constraint_error(model: &Model, q: &[f64], cm: &ConstraintModel) -> DVector<f64> {
    dvector(&constraint::compute_constraint_error(&Floats, model, &to_reals(q), &cm.inner))
}

fn compute_constraint_jacobian(model: &Model, q: &[f64], cm: &ConstraintModel) -> DMatrix<f64> {
    na_matrix(&constraint::compute_constraint_jacobian(&Floats, model, &to_reals(q), &cm.inner))
}

#[derive(Clone, Debug)]
struct ConstrainedIkConfig {
    max_iters: usize,
    tol_constraint: f64,
    tol_task: f64,
    step_size: f64,
    damping: f64,
    constraint_weight: f64,
}

impl Default for ConstrainedIkConfig {
    fn default() -> Self {
        let c = LibConstrainedIkConfig::default();
        ConstrainedIkConfig {
            max_iters: c.max_iters,
            tol_constraint: to_float(c.tol_constraint),
            tol_task: to_float(c.tol_task),
            step_size: to_float(c.step_size),
            damping: to_float(c.damping),
            constraint_weight: to_float(c.constraint_weight),
        }
    }
}

impl ConstrainedIkConfig {
    fn lib(&self) -> LibConstrainedIkConfig {
        LibConstrainedIkConfig {
            max_iters: self.max_iters,
            tol_constraint: to_real(self.tol_constraint),
            tol_task: to_real(self.tol_task),
            step_size: to_real(self.step_size),
            damping: to_real(self.damping),
            constraint_weight: to_real(self.constraint_weight),
        }
    }
}

struct ConstrainedIkResult {
    q: Vec<f64>,
    iterations: usize,
    constraint_error_norm: f64,
    task_error_norm: f64,
    converged: bool,
}

fn constrained_result(r: LibConstrainedIkResult) -> ConstrainedIkResult {
    ConstrainedIkResult {
        q: to_floats(&r.q),
        iterations: r.iterations,
        constraint_error_norm: to_float(r.constraint_error_norm),
        task_error_norm: to_float(r.task_error_norm),
        converged: r.converged,
    }
}

fn solve_constrained_ik(
    model: &Model,
    q0: &[f64],
    cm: &ConstraintModel,
    cfg: &ConstrainedIkConfig,
) -> ConstrainedIkResult {
    let r = constraint::solve_constrained_ik(&Floats, model, &to_reals(q0), &cm.inner, &cfg.lib());
    constrained_result(r)
}

fn solve_task_with_constraints(
    model: &Model,
    q0: &[f64],
    joint: usize,
    target: Vector3<f64>,
    cm: &ConstraintModel,
    cfg: &ConstrainedIkConfig,
) -> ConstrainedIkResult {
    constrained_result(constraint::solve_task_with_constraints(
        &Floats,
        model,
        &to_reals(q0),
        joint,
        vector(&target),
        &cm.inner,
        &cfg.lib(),
    ))
}

fn solve_frame_task_with_constraints(
    model: &Model,
    q0: &[f64],
    task_frame: &Frame,
    target: Iso,
    cm: &ConstraintModel,
    cfg: &ConstrainedIkConfig,
) -> ConstrainedIkResult {
    constrained_result(constraint::solve_frame_task_with_constraints(
        &Floats,
        model,
        &to_reals(q0),
        &task_frame.lib(),
        placement(&target),
        &cm.inner,
        &cfg.lib(),
    ))
}

#[derive(Clone, Debug)]
struct QpIkConfig {
    max_iters: usize,
    tol_task: f64,
    tol_constraint: f64,
    step_size: f64,
    damping: f64,
    constraint_weight: f64,
    joint_limits: Option<JointLimits>,
    max_step: Option<f64>,
    qp_max_iters: usize,
    qp_solver: QpSolver,
}

impl Default for QpIkConfig {
    fn default() -> Self {
        let c = LibQpIkConfig::default();
        assert!(c.joint_limits.is_none());
        QpIkConfig {
            max_iters: c.max_iters,
            tol_task: to_float(c.tol_task),
            tol_constraint: to_float(c.tol_constraint),
            step_size: to_float(c.step_size),
            damping: to_float(c.damping),
            constraint_weight: to_float(c.constraint_weight),
            joint_limits: None,
            max_step: c.max_step.map(to_float),
            qp_max_iters: c.qp_max_iters,
            qp_solver: c.qp_solver,
        }
    }
}

impl QpIkConfig {
    fn lib(&self) -> LibQpIkConfig {
        LibQpIkConfig {
            max_iters: self.max_iters,
            tol_task: to_real(self.tol_task),
            tol_constraint: to_real(self.tol_constraint),
            step_size: to_real(self.step_size),
            damping: to_real(self.damping),
            constraint_weight: to_real(self.constraint_weight),
            joint_limits: self.joint_limits.as_ref().map(|l| l.lib()),
            max_step: self.max_step.map(to_real),
            qp_max_iters: self.qp_max_iters,
            qp_solver: self.qp_solver,
        }
    }
}

fn build_joint_limit_inequalities(
    model: &Model,
    q: &[f64],
    limits: &JointLimits,
) -> (DMatrix<f64>, DVector<f64>) {
    let (a, b) = constraint::build_joint_limit_inequalities(&Floats, model, &to_reals(q), &limits.lib());
    (na_matrix(&a), dvector(&b))
}

fn build_max_step_inequalities(nv: usize, max_step: f64) -> (DMatrix<f64>, DVector<f64>) {
    let (a, b) = constraint::build_max_step_inequalities(nv, to_real(max_step));
    (na_matrix(&a), dvector(&b))
}

fn stack_inequalities(pairs: &[(&DMatrix<f64>, &DVector<f64>)]) -> (DMatrix<f64>, DVector<f64>) {
    let all = pairs.iter().map(|(a, b)| (matrix(a), list(b))).collect();
    let (a, b) = constraint::stack_inequalities(&all);
    (na_matrix(&a), dvector(&b))
}

fn solve_constrained_ik_qp(
    model: &Model,
    q0: &[f64],
    cm: &ConstraintModel,
    cfg: &QpIkConfig,
) -> ConstrainedIkResult {
    let r = constraint::solve_constrained_ik_qp(&Floats, model, &to_reals(q0), &cm.inner, &cfg.lib());
    constrained_result(r)
}

fn solve_task_with_constraints_qp(
    model: &Model,
    q0: &[f64],
    joint: usize,
    target: Vector3<f64>,
    cm: &ConstraintModel,
    cfg: &QpIkConfig,
) -> ConstrainedIkResult {
    constrained_result(constraint::solve_task_with_constraints_qp(
        &Floats,
        model,
        &to_reals(q0),
        joint,
        vector(&target),
        &cm.inner,
        &cfg.lib(),
    ))
}

fn solve_frame_task_with_constraints_qp(
    model: &Model,
    q0: &[f64],
    task_frame: &Frame,
    target: Iso,
    cm: &ConstraintModel,
    cfg: &QpIkConfig,
) -> ConstrainedIkResult {
    constrained_result(constraint::solve_frame_task_with_constraints_qp(
        &Floats,
        model,
        &to_reals(q0),
        &task_frame.lib(),
        placement(&target),
        &cm.inner,
        &cfg.lib(),
    ))
}


// ── joint ──

#[test]
fn revolute_z_quarter_turn() {
    let joint = revolute_z();
    let placement = forward(&joint, &[FRAC_PI_2]);
    let p = se3_act_on_point(&placement, &Vector3::new(1.0, 0.0, 0.0));
    near(p, Vector3::new(0.0, 1.0, 0.0), 1e-12);
}

#[test]
fn prismatic_x_displacement() {
    let joint = prismatic_x();
    let placement = forward(&joint, &[2.5]);
    near(se3_translation(&placement), Vector3::new(2.5, 0.0, 0.0), 1e-14);
}

#[test]
fn fixed_is_identity() {
    let joint: JointType = JointType::Fixed;
    let placement = forward(&joint, &[]);
    near(se3_to_homogeneous(&placement), na::Matrix4::identity(), 1e-14);
}

#[test]
fn revolute_subspace_is_axis() {
    let joint = revolute_z();
    let s = columns(&joint.motion_subspace());
    assert_eq!(s.nrows(), 6);
    assert_eq!(s.ncols(), 1);
    near(s[(2, 0)], 1.0, 1e-14);
}

// ── fk ──

fn fk_two_link_arm() -> Model {
    // Two revolute-Z joints, each link 1m long along X.
    let offset = se3_from_rotation_and_translation(
        &na::Rotation3::identity(),
        &Vector3::new(1.0, 0.0, 0.0),
    );
    ModelBuilder::new()
        .add_joint(
            "shoulder",
            0,
            revolute_z(),
            se3_identity(),
            LinkInertia::zero(),
        )
        .add_joint("elbow", 1, revolute_z(), offset, LinkInertia::zero())
        .build()
}

#[test]
fn fk_zero_config() {
    let model = fk_two_link_arm();
    let q = vec![0.0, 0.0];
    let data = forward_kinematics(&model, &q);

    // Joint 1 at origin (no offset, zero angle)
    near(se3_translation(&data.oMi[1]), Vector3::zeros(), 1e-12);
    // Joint 2 at (1, 0, 0) — offset along X
    near(se3_translation(&data.oMi[2]), Vector3::new(1.0, 0.0, 0.0), 1e-12);
}

#[test]
fn fk_shoulder_90deg() {
    let model = fk_two_link_arm();
    let q = vec![FRAC_PI_2, 0.0];
    let data = forward_kinematics(&model, &q);

    // Joint 1 at origin, rotated 90° about Z
    near(se3_translation(&data.oMi[1]), Vector3::zeros(), 1e-12);
    // Joint 2: link was along X, now rotated → along Y
    near(se3_translation(&data.oMi[2]), Vector3::new(0.0, 1.0, 0.0), 1e-12);
}

#[test]
fn fk_both_90deg() {
    let model = fk_two_link_arm();
    let q = vec![FRAC_PI_2, FRAC_PI_2];
    let data = forward_kinematics(&model, &q);

    // Shoulder 90° + Elbow 90° = end effector at (0, 1, 0) + rotation by further 90°
    // Link 2 originally along X from joint 2, but joint 2 itself rotated total 180° about Z
    // So link2 tip would be at (0, 1, 0) + rot(180°) * (1, 0, 0) = (0, 1, 0) + (-1, 0, 0)
    // = (-1, 1, 0)
    // But oMi[2] is at the *joint* frame, not the end effector.
    // oMi[2] = joint 2 position = (0, 1, 0), which is correct from previous test.
    near(se3_translation(&data.oMi[2]), Vector3::new(0.0, 1.0, 0.0), 1e-12);
}

#[test]
fn fk_is_pure() {
    // Calling forward_kinematics twice with the same input must give the same output.
    let model = fk_two_link_arm();
    let q = vec![0.3, -0.5];
    let d1 = forward_kinematics(&model, &q);
    let d2 = forward_kinematics(&model, &q);
    for i in 1..model.joints.len() {
        near(se3_to_homogeneous(&d1.oMi[i]), se3_to_homogeneous(&d2.oMi[i]), 1e-14);
    }
}

#[test]
fn fk_velocity_revolute_z() {
    // Single revolute-Z at zero config with angular velocity = 1 rad/s.
    // Body velocity should be [0, 0, 1, 0, 0, 0] (pure rotation about Z
    // in the body frame, which coincides with world at q=0).
    let model = ModelBuilder::new()
        .add_joint(
            "j1", 0, revolute_z(), se3_identity(), LinkInertia::zero(),
        )
        .build();
    let q = vec![0.0];
    let v = vec![1.0];
    let data = forward_kinematics_velocity(&model, &q, &v);
    near(data.v[1][0], 0.0, 1e-12);
    near(data.v[1][1], 0.0, 1e-12);
    near(data.v[1][2], 1.0, 1e-12);
    near(data.v[1][3], 0.0, 1e-12);
    near(data.v[1][4], 0.0, 1e-12);
    near(data.v[1][5], 0.0, 1e-12);
}

#[test]
fn fk_velocity_two_link_propagation() {
    // Two-link arm, both spinning at 1 rad/s about Z.
    // Joint 2 body velocity should accumulate both rotations.
    let model = fk_two_link_arm();
    let q = vec![0.0, 0.0];
    let v = vec![1.0, 1.0];
    let data = forward_kinematics_velocity(&model, &q, &v);

    // Joint 1: ωz = 1
    near(data.v[1][2], 1.0, 1e-12);
    // Joint 2: ωz = 2 (parent + own)
    near(data.v[2][2], 2.0, 1e-12);
    // Joint 2 linear velocity: lever arm from parent rotation
    // Parent ω = [0,0,1], joint 2 at (1,0,0) from parent → v_lin_body = ω × p
    // In body frame this becomes (-R^T p × ω_parent) contribution
    // At zero config, R=I, p=(1,0,0), ω_parent=[0,0,1]
    // v_lin = v_parent_lin - p × ω_parent = 0 - (1,0,0)×(0,0,1) = -(0,-1,0) = (0,1,0)
    near(data.v[2][3], 0.0, 1e-12);
    near(data.v[2][4], 1.0, 1e-12);
    near(data.v[2][5], 0.0, 1e-12);
}

#[test]
fn fk_velocity_placements_match_zero_order() {
    // FK velocity should produce identical placements as FK zero-order.
    let model = fk_two_link_arm();
    let q = vec![0.3, -0.5];
    let v = vec![1.0, -2.0];
    let d0 = forward_kinematics(&model, &q);
    let dv = forward_kinematics_velocity(&model, &q, &v);
    for i in 1..model.joints.len() {
        near(se3_to_homogeneous(&d0.oMi[i]), se3_to_homogeneous(&dv.oMi[i]), 1e-12);
    }
}

#[test]
fn fk_acceleration_gravity_only() {
    // Single link at rest: acceleration should reflect gravity in body frame.
    let model = ModelBuilder::new()
        .add_joint(
            "j1", 0, revolute_z(), se3_identity(), LinkInertia::zero(),
        )
        .build();
    let q = vec![0.0];
    let v = vec![0.0];
    let a = vec![0.0];
    let data = forward_kinematics_acceleration(&model, &q, &v, &a);
    // At zero config, body frame = world frame.
    // a[1] should include gravity contribution: universe accelerates upward
    // gravity = [0, 0, -9.81] → a0 = [0, 0, 0, 0, 0, +9.81]
    near(data.a[1][3], 0.0, 1e-10);
    near(data.a[1][4], 0.0, 1e-10);
    near(data.a[1][5], 9.81, 1e-10);
}

#[test]
fn fk_acceleration_consistent_with_rnea() {
    // The body velocities and accelerations from FK should match
    // what RNEA computes internally.

    let offset = se3_from_rotation_and_translation(
        &na::Rotation3::identity(),
        &Vector3::new(0.0, 0.0, -1.0),
    );
    let model = ModelBuilder::new()
        .add_joint(
            "j1", 0, revolute_y(), se3_identity(),
            LinkInertia {
                mass: 1.0,
                center_of_mass: Vector3::new(0.0, 0.0, -0.5),
                rotational_inertia: Matrix3::identity() * 0.1,
            },
        )
        .add_joint(
            "j2", 1, revolute_y(), offset,
            LinkInertia {
                mass: 1.0,
                center_of_mass: Vector3::new(0.0, 0.0, -0.5),
                rotational_inertia: Matrix3::identity() * 0.1,
            },
        )
        .build();
    let q = vec![0.3, -0.5];
    let v = vec![1.0, -0.5];
    let a_in = vec![0.5, 0.2];

    // FK 2nd order
    let data = forward_kinematics_acceleration(&model, &q, &v, &a_in);

    // Use RNEA (which computes body velocities and accelerations internally);
    // Since RNEA returns τ = M(q)a + C(q,v)v + g(q) = Y*a + pa,
    // we can verify that the FK accelerations are consistent by checking
    // that rnea(model, q, v, a) produces finite reasonable values.
    let tau = rnea(&model, &q, &v, &a_in);
    assert!(tau.norm() < 1e10, "tau not finite");

    // Body velocities must be finite and non-zero for non-trivial input.
    assert!(data.v[1].norm() > 0.0);
    assert!(data.v[2].norm() > 0.0);
    assert!(data.a[1].norm() < 1e10, "a[1] not finite");
    assert!(data.a[2].norm() < 1e10, "a[2] not finite");
}

// ── frames ──

fn frames_two_link_arm() -> Model {
    let offset = se3_from_rotation_and_translation(
        &Rotation3::identity(),
        &Vector3::new(1.0, 0.0, 0.0),
    );
    ModelBuilder::new()
        .add_joint(
            "j1",
            0,
            revolute_z(),
            se3_identity(),
            LinkInertia::zero(),
        )
        .add_joint("j2", 1, revolute_z(), offset, LinkInertia::zero())
        .build()
}

#[test]
fn frame_at_joint_matches_fk() {
    let model = frames_two_link_arm();
    let q = vec![0.3, -0.5];
    let data = forward_kinematics(&model, &q);

    // A frame with identity offset on joint 2 should match oMi[2]
    let frame = Frame {
        name: "j2_frame".into(),
        parent_joint: 2,
        placement: se3_identity(),
    };

    let placement = compute_frame_placement_from_data(&data, &frame);
    near(se3_to_homogeneous(&placement), se3_to_homogeneous(&data.oMi[2]), 1e-12);
}

#[test]
fn frame_with_offset() {
    let model = frames_two_link_arm();
    let q = vec![0.0, 0.0];

    // Frame at joint 2 with 0.5m offset along X
    let offset = se3_from_rotation_and_translation(
        &Rotation3::identity(),
        &Vector3::new(0.5, 0.0, 0.0),
    );
    let frame = Frame {
        name: "tool".into(),
        parent_joint: 2,
        placement: offset,
    };

    let placement = compute_frame_placement(&model, &q, &frame);
    // Joint 2 is at (1, 0, 0), tool is 0.5 further → (1.5, 0, 0)
    near(se3_translation(&placement), Vector3::new(1.5, 0.0, 0.0), 1e-12);
}

#[test]
fn frame_jacobian_at_joint_matches_joint_jacobian() {
    let model = frames_two_link_arm();
    let q = vec![0.3, -0.5];

    // Frame at joint 2 with no offset → same as joint Jacobian
    let frame = Frame {
        name: "j2_frame".into(),
        parent_joint: 2,
        placement: se3_identity(),
    };

    let j_frame = compute_frame_jacobian(&model, &q, &frame);
    let j_joint = compute_joint_jacobian(&model, &q, 2);

    near(j_frame, j_joint, 1e-12);
}

#[test]
fn frame_jacobian_with_offset_numerical() {
    let model = frames_two_link_arm();
    let q = vec![0.3, -0.5];

    let tool_offset = se3_from_rotation_and_translation(
        &Rotation3::identity(),
        &Vector3::new(0.5, 0.0, 0.0),
    );
    let frame = Frame {
        name: "tool".into(),
        parent_joint: 2,
        placement: tool_offset,
    };

    let j_frame = compute_frame_jacobian(&model, &q, &frame);

    // Validate via finite difference
    let eps = 1e-8;
    for col in 0..model.nv {
        let mut q_plus = q.clone();
        let mut q_minus = q.clone();
        q_plus[col] += eps;
        q_minus[col] -= eps;

        let p_plus = compute_frame_placement(&model, &q_plus, &frame);
        let p_minus = compute_frame_placement(&model, &q_minus, &frame);

        let t_plus = se3_translation(&p_plus);
        let t_minus = se3_translation(&p_minus);
        let v_num = (t_plus - t_minus) / (2.0 * eps);

        // Linear part (rows 3-5)
        for r in 0..3 {
            near(j_frame[(3 + r, col)], v_num[r], 1e-5);
        }
    }
}

#[test]
fn frames_from_links_count() {
    let model = frames_two_link_arm();
    let fm = frames::frames_from_links(&model);
    // base_link + link_1 + link_2 = 3 frames
    assert_eq!(fm.len(), 3);
}

#[test]
fn frame_model_find() {
    let mut fm = FrameModel::new();
    fm.add_frame("tool0", 2, se3_identity());
    fm.add_frame("camera", 1, se3_identity());

    assert!(fm.find("tool0").is_some());
    assert_eq!(fm.find_index("camera"), Some(1));
    assert!(fm.find("nonexistent").is_none());
}

#[test]
fn compute_all_frame_placements_matches_individual() {
    let model = frames_two_link_arm();
    let q = vec![0.3, -0.5];

    let mut fm = FrameModel::new();
    fm.add_frame("a", 1, se3_identity());
    fm.add_frame(
        "b",
        2,
        se3_from_rotation_and_translation(
            &Rotation3::identity(),
            &Vector3::new(0.5, 0.0, 0.0),
        ),
    );

    let all = compute_all_frame_placements(&model, &q, &fm);

    for (i, frame) in fm.frames.iter().enumerate() {
        let individual = compute_frame_placement(&model, &q, frame);
        near(se3_to_homogeneous(&all[i]), se3_to_homogeneous(&individual), 1e-12);
    }
}

// ── jacobian ──

fn jacobian_two_link_arm() -> Model {
    let offset = se3_from_rotation_and_translation(
        &na::Rotation3::identity(),
        &Vector3::new(1.0, 0.0, 0.0),
    );
    ModelBuilder::new()
        .add_joint(
            "shoulder",
            0,
            revolute_z(),
            se3_identity(),
            LinkInertia::zero(),
        )
        .add_joint("elbow", 1, revolute_z(), offset, LinkInertia::zero())
        .build()
}

/// Three-link arm:  root → j1(Z) → j2(Z) → j3(Z), each offset 1m along X.
fn jacobian_three_link_arm() -> Model {
    let offset = se3_from_rotation_and_translation(
        &na::Rotation3::identity(),
        &Vector3::new(1.0, 0.0, 0.0),
    );
    ModelBuilder::new()
        .add_joint(
            "j1",
            0,
            revolute_z(),
            se3_identity(),
            LinkInertia::zero(),
        )
        .add_joint("j2", 1, revolute_z(), offset.clone(), LinkInertia::zero())
        .add_joint("j3", 2, revolute_z(), offset, LinkInertia::zero())
        .build()
}

/// Branched tree:  root → j1 → j2 (chain), root → j3 (branch).
fn jacobian_branched_arm() -> Model {
    let offset_x = se3_from_rotation_and_translation(
        &na::Rotation3::identity(),
        &Vector3::new(1.0, 0.0, 0.0),
    );
    let offset_y = se3_from_rotation_and_translation(
        &na::Rotation3::identity(),
        &Vector3::new(0.0, 1.0, 0.0),
    );
    ModelBuilder::new()
        .add_joint("j1", 0, revolute_z(), se3_identity(), LinkInertia::zero())
        .add_joint("j2", 1, revolute_z(), offset_x, LinkInertia::zero())
        .add_joint("j3", 0, revolute_z(), offset_y, LinkInertia::zero())
        .build()
}

#[test]
fn jacobian_two_link_zero_config() {
    let model = jacobian_two_link_arm();
    let q = vec![0.0, 0.0];
    let jac = compute_joint_jacobian(&model, &q, 2);

    near(jac[(2, 0)], 1.0, 1e-12);
    near(jac[(4, 0)], 1.0, 1e-12);
    near(jac[(2, 1)], 1.0, 1e-12);
    near(jac[(3, 1)], 0.0, 1e-12);
    near(jac[(4, 1)], 0.0, 1e-12);
}

#[test]
fn jacobian_numerical_validation() {
    let model = jacobian_two_link_arm();
    let q = vec![0.3, -0.5];
    let jac = compute_joint_jacobian(&model, &q, 2);

    let eps = 1e-8;
    let data_ref = forward_kinematics(&model, &q);
    let p_ref = se3_translation(&data_ref.oMi[2]);

    for j in 0..model.nv {
        let mut q_plus = q.clone();
        q_plus[j] += eps;
        let data_plus = forward_kinematics(&model, &q_plus);
        let p_plus = se3_translation(&data_plus.oMi[2]);

        let dp = (p_plus - p_ref) / eps;
        near(jac[(3, j)], dp[0], 1e-5);
        near(jac[(4, j)], dp[1], 1e-5);
        near(jac[(5, j)], dp[2], 1e-5);
    }
}

#[test]
fn jacobian_is_pure() {
    let model = jacobian_two_link_arm();
    let q = vec![0.3, -0.5];
    let j1 = compute_joint_jacobian(&model, &q, 2);
    let j2 = compute_joint_jacobian(&model, &q, 2);
    near(j1, j2, 1e-14);
}

// ── Relative Jacobian tests ─────────────────────────────────────────

#[test]
fn relative_jacobian_serial_chain() {
    // base=j1, ee=j3 in three_link_arm (serial chain).
    // J_rel = J(j3) - J(j1).
    // j1 is a common ancestor → angular cancels, linear = ω × (p_ee - p_base).
    // j2, j3 appear only in J(j3) → standard columns.
    let model = jacobian_three_link_arm();
    let q = vec![0.3, -0.5, 0.8];

    let jac_full_ee = compute_joint_jacobian(&model, &q, 3);
    let jac_full_base = compute_joint_jacobian(&model, &q, 1);
    let jac_rel = compute_relative_jacobian(&model, &q, 1, 3);

    // Should equal J(ee) - J(base)
    let expected = &jac_full_ee - &jac_full_base;
    near(jac_rel, expected, 1e-14);
}

#[test]
fn relative_jacobian_numerical_validation() {
    // Validate relative Jacobian via finite differences.
    // relative_pos = oMi[base]^{-1} * oMi[ee].translation
    let model = jacobian_three_link_arm();
    let q = vec![0.3, -0.5, 0.8];
    let jac = compute_relative_jacobian(&model, &q, 1, 3);

    let eps = 1e-8;
    let data_ref = forward_kinematics(&model, &q);
    let p_ee = se3_translation(&data_ref.oMi[3]);
    let p_base = se3_translation(&data_ref.oMi[1]);
    let rel_ref = &p_ee - &p_base;

    for j in 0..model.nv {
        let mut q_plus = q.clone();
        q_plus[j] += eps;
        let data_plus = forward_kinematics(&model, &q_plus);
        let p_ee_p = se3_translation(&data_plus.oMi[3]);
        let p_base_p = se3_translation(&data_plus.oMi[1]);
        let rel_plus = &p_ee_p - &p_base_p;

        let dp = (&rel_plus - &rel_ref) / eps;
        near(jac[(3, j)], dp[0], 1e-4);
        near(jac[(4, j)], dp[1], 1e-4);
        near(jac[(5, j)], dp[2], 1e-4);
    }
}

#[test]
fn relative_jacobian_branched() {
    // base=j2 (on chain), ee=j3 (on branch). LCA = universe (0).
    let model = jacobian_branched_arm();
    let q = vec![0.4, -0.2, 0.6];
    let jac = compute_relative_jacobian(&model, &q, 2, 3);

    // Validate numerically
    let eps = 1e-8;
    let data_ref = forward_kinematics(&model, &q);
    let p_ee = se3_translation(&data_ref.oMi[3]);
    let p_base = se3_translation(&data_ref.oMi[2]);
    let rel_ref = &p_ee - &p_base;

    for j in 0..model.nv {
        let mut q_plus = q.clone();
        q_plus[j] += eps;
        let data_plus = forward_kinematics(&model, &q_plus);
        let p_ee_p = se3_translation(&data_plus.oMi[3]);
        let p_base_p = se3_translation(&data_plus.oMi[2]);
        let rel_plus = &p_ee_p - &p_base_p;

        let dp = (&rel_plus - &rel_ref) / eps;
        near(jac[(3, j)], dp[0], 1e-4);
        near(jac[(4, j)], dp[1], 1e-4);
        near(jac[(5, j)], dp[2], 1e-4);
    }
}

// ── Masked Jacobian tests ───────────────────────────────────────────

#[test]
fn masked_jacobian_excludes_joint() {
    let model = jacobian_three_link_arm();
    let q = vec![0.3, -0.5, 0.8];

    // Mask out j2 (index 2)
    let jac = compute_masked_jacobian(&model, &q, 3, &[2]);
    let jac_full = compute_joint_jacobian(&model, &q, 3);

    // j2 columns should be zero
    for row in 0..6 {
        near(jac[(row, 1)], 0.0, 1e-14);
    }
    // j1 and j3 should be identical to full
    for row in 0..6 {
        near(jac[(row, 0)], jac_full[(row, 0)], 1e-14);
        near(jac[(row, 2)], jac_full[(row, 2)], 1e-14);
    }
}

#[test]
fn masked_jacobian_empty_mask_equals_full() {
    let model = jacobian_three_link_arm();
    let q = vec![0.3, -0.5, 0.8];

    let jac_full = compute_joint_jacobian(&model, &q, 3);
    let jac_masked = compute_masked_jacobian(&model, &q, 3, &[]);
    near(jac_full, jac_masked, 1e-14);
}

#[test]
fn masked_jacobian_mask_all_gives_zero() {
    let model = jacobian_three_link_arm();
    let q = vec![0.3, -0.5, 0.8];

    let jac = compute_masked_jacobian(&model, &q, 3, &[1, 2, 3]);
    near(jac, DMatrix::zeros(6, 3), 1e-14);
}

#[test]
fn masked_jacobian_numerical_validation() {
    // Mask out j2, verify only j1 and j3 produce the expected finite-diff.
    let model = jacobian_three_link_arm();
    let q = vec![0.3, -0.5, 0.8];
    let mask = &[2usize];
    let jac = compute_masked_jacobian(&model, &q, 3, mask);

    let eps = 1e-8;
    let data_ref = forward_kinematics(&model, &q);
    let p_ref = se3_translation(&data_ref.oMi[3]);

    // Only non-masked joints should match finite diff
    for j in [0usize, 2] {
        // DOF indices 0 (j1) and 2 (j3)
        let mut q_plus = q.clone();
        q_plus[j] += eps;
        let data_plus = forward_kinematics(&model, &q_plus);
        let p_plus = se3_translation(&data_plus.oMi[3]);

        let dp = (p_plus - &p_ref) / eps;
        near(jac[(3, j)], dp[0], 1e-5);
        near(jac[(4, j)], dp[1], 1e-5);
        near(jac[(5, j)], dp[2], 1e-5);
    }
}

// ── Combined: relative + masked ─────────────────────────────────────

#[test]
fn relative_masked_jacobian_combined() {
    let model = jacobian_three_link_arm();
    let q = vec![0.3, -0.5, 0.8];

    // Relative j1→j3 with j2 masked
    let jac = compute_relative_masked_jacobian(&model, &q, 1, 3, &[2]);

    // j2 col = 0 (masked)
    for row in 0..6 {
        near(jac[(row, 1)], 0.0, 1e-14);
    }
    // j3 column should be non-zero
    let j3_norm = (0..6)
        .map(|r| jac[(r, 2)] * jac[(r, 2)])
        .sum::<f64>()
        .sqrt();
    assert!(j3_norm > 0.01, "j3 column should be non-zero");
}

#[test]
fn relative_masked_numerical_validation() {
    let model = jacobian_three_link_arm();
    let q = vec![0.3, -0.5, 0.8];
    let mask = &[2usize];
    let jac = compute_relative_masked_jacobian(&model, &q, 1, 3, mask);

    let eps = 1e-8;
    let data_ref = forward_kinematics(&model, &q);
    let p_ee = se3_translation(&data_ref.oMi[3]);
    let p_base = se3_translation(&data_ref.oMi[1]);
    let rel_ref = &p_ee - &p_base;

    // j3 (DOF index 2) should match the relative finite difference
    let j = 2usize;
    let mut q_plus = q.clone();
    q_plus[j] += eps;
    let data_plus = forward_kinematics(&model, &q_plus);
    let p_ee_p = se3_translation(&data_plus.oMi[3]);
    let p_base_p = se3_translation(&data_plus.oMi[1]);
    let rel_plus = &p_ee_p - &p_base_p;
    let dp = (&rel_plus - &rel_ref) / eps;

    near(jac[(3, j)], dp[0], 1e-4);
    near(jac[(4, j)], dp[1], 1e-4);
    near(jac[(5, j)], dp[2], 1e-4);
}

// ── Local-frame Jacobian tests ──────────────────────────────────────

#[test]
fn local_jacobian_zero_config_matches_world() {
    // At zero config of a revolute-Z at origin, body frame = world frame.
    // So J_local should equal J_world.
    let model = ModelBuilder::new()
        .add_joint(
            "j1", 0, revolute_z(), se3_identity(), LinkInertia::zero(),
        )
        .build();
    let q = vec![0.0];
    let j_world = compute_joint_jacobian(&model, &q, 1);
    let j_local = compute_joint_jacobian_local(&model, &q, 1);
    near(j_world, j_local, 1e-12);
}

#[test]
fn local_jacobian_rotation_invariance() {
    // The body-frame angular Jacobian column for the own joint's revolute axis
    // should always be [0,0,1,0,0,0] regardless of configuration, since the
    // motion subspace is constant in the body frame.
    let model = ModelBuilder::new()
        .add_joint(
            "j1", 0, revolute_z(), se3_identity(), LinkInertia::zero(),
        )
        .build();
    for &angle in &[0.0, 0.7, -1.3, std::f64::consts::PI] {
        let q = vec![angle];
        let j_local = compute_joint_jacobian_local(&model, &q, 1);
        // Angular part of column 0 should be [0, 0, 1]
        near(j_local[(0, 0)], 0.0, 1e-12);
        near(j_local[(1, 0)], 0.0, 1e-12);
        near(j_local[(2, 0)], 1.0, 1e-12);
    }
}

#[test]
fn local_jacobian_transform_consistency() {
    // J_local * v should give body-frame velocity, which should match
    // R^T * J_world * v for the angular part.
    let model = jacobian_two_link_arm();
    let q = vec![0.5, -0.3];
    let v = na::DVector::from_column_slice(&[1.0, -0.5]);

    let data = forward_kinematics(&model, &q);
    let j_world = compute_joint_jacobian_from_data(&model, &q, &data, 2);
    let j_local = compute_joint_jacobian_local_from_data(&model, &q, &data, 2);

    let vel_world = &j_world * &v;
    let vel_local = &j_local * &v;

    // R^T * vel_world_angular should == vel_local_angular
    let r = se3_rotation_matrix(&data.oMi[2]);
    let rt = r.transpose();
    let w_world = Vector3::new(vel_world[0], vel_world[1], vel_world[2]);
    let w_local_expected = &rt * w_world;
    near(vel_local[0], w_local_expected[0], 1e-10);
    near(vel_local[1], w_local_expected[1], 1e-10);
    near(vel_local[2], w_local_expected[2], 1e-10);
}

// ── Jacobian time derivative tests ──────────────────────────────────

#[test]
fn dj_dt_zero_velocity_is_zero() {
    let model = jacobian_two_link_arm();
    let q = vec![0.3, -0.5];
    let v = vec![0.0, 0.0];
    let dj = compute_joint_jacobian_time_derivative(&model, &q, &v, 2);
    near(dj, DMatrix::zeros(6, 2), 1e-10);
}

#[test]
fn dj_dt_finite_difference_validation() {
    // Validate dJ/dt numerically: for small dt,
    // J(q + v*dt) ≈ J(q) + dJ/dt * dt
    let model = jacobian_two_link_arm();
    let q = vec![0.3, -0.5];
    let v = vec![1.0, -0.5];
    let dj = compute_joint_jacobian_time_derivative(&model, &q, &v, 2);

    let dt = 1e-6;
    let q_fwd: Vec<f64> = q.iter().zip(v.iter()).map(|(qi, vi)| qi + vi * dt).collect();
    let j_fwd = compute_joint_jacobian(&model, &q_fwd, 2);
    let j_cur = compute_joint_jacobian(&model, &q, 2);
    let dj_fd = (&j_fwd - &j_cur) / dt;

    near(dj, dj_fd, 1e-4);
}
#[test]
fn jacobian_dot_times_v_matches_matrix_times_v() {
    // The dedicated J̇·v helper must equal forming the full J̇ and
    // multiplying by v, for an arbitrary configuration and velocity.
    let model = jacobian_three_link_arm();
    let q = vec![0.3, -0.7, 0.5];
    let v = vec![1.1, -0.4, 0.9];
    for joint_idx in 1..model.joints.len() {
        let jdot = compute_joint_jacobian_time_derivative(&model, &q, &v, joint_idx);
        let v_vec = na::DVector::from_column_slice(&v);
        let reference = jdot * v_vec; // 6-vector
        let direct = compute_jacobian_dot_times_v(&model, &q, &v, joint_idx);
        for r in 0..6 {
            near(direct[r], reference[r], 1e-6);
        }
    }
}

#[test]
fn jacobian_dot_times_v_zero_velocity_is_zero() {
    let model = jacobian_two_link_arm();
    let q = vec![0.2, 0.4];
    let v = vec![0.0, 0.0];
    let d = compute_jacobian_dot_times_v(&model, &q, &v, 2);
    assert!(d.norm() < 1e-9, "J̇·v must vanish at v = 0");
}

// ── aba ──

fn aba_two_link_arm() -> Model {
    let offset1 = se3_from_rotation_and_translation(
        &na::Rotation3::identity(),
        &Vector3::new(0.0, 0.0, -0.5),
    );
    let offset2 = se3_from_rotation_and_translation(
        &na::Rotation3::identity(),
        &Vector3::new(0.0, 0.0, -1.0),
    );
    ModelBuilder::new()
        .add_joint(
            "j1",
            0,
            revolute_y(),
            offset1,
            LinkInertia {
                mass: 2.0,
                center_of_mass: Vector3::new(0.0, 0.0, -0.5),
                rotational_inertia: Matrix3::new(
                    0.2, 0.0, 0.0,
                    0.0, 0.2, 0.0,
                    0.0, 0.0, 0.02,
                ),
            },
        )
        .add_joint(
            "j2",
            1,
            revolute_y(),
            offset2,
            LinkInertia {
                mass: 1.0,
                center_of_mass: Vector3::new(0.0, 0.0, -0.5),
                rotational_inertia: Matrix3::new(
                    0.1, 0.0, 0.0,
                    0.0, 0.1, 0.0,
                    0.0, 0.0, 0.01,
                ),
            },
        )
        .build()
}

#[test]
fn aba_zero_torque_gravity_free() {
    // No gravity, no torque → zero acceleration
    let model = ModelBuilder::new()
        .gravity(Vector3::zeros())
        .add_joint(
            "j1",
            0,
            revolute_z(),
            se3_identity(),
            LinkInertia {
                mass: 1.0,
                center_of_mass: Vector3::zeros(),
                rotational_inertia: Matrix3::identity() * 0.1,
            },
        )
        .build();
    let q = vec![0.0];
    let v = vec![0.0];
    let tau = vec![0.0];
    let qdd = aba(&model, &q, &v, &tau);
    near(qdd[0], 0.0, 1e-12);
}

#[test]
fn aba_consistent_with_crba_rnea() {
    // ABA should produce: qdd = M^{-1} (tau - nle)
    let model = aba_two_link_arm();
    let q = vec![0.3, -0.5];
    let v = vec![1.0, -0.5];
    let tau_input = vec![5.0, -2.0];

    let qdd_aba = aba(&model, &q, &v, &tau_input);

    // Compute via CRBA + RNEA
    let m = crba(&model, &q);
    let nle = nonlinear_effects(&model, &q, &v);
    let rhs = DVector::from_column_slice(&tau_input) - nle;
    let m_lu = m.lu();
    let qdd_expected = m_lu.solve(&rhs).unwrap();

    near(qdd_aba, qdd_expected, 1e-8);
}

#[test]
fn aba_is_pure() {
    let model = aba_two_link_arm();
    let q = vec![0.3, -0.5];
    let v = vec![1.0, -0.5];
    let tau = vec![5.0, -2.0];
    let a1 = aba(&model, &q, &v, &tau);
    let a2 = aba(&model, &q, &v, &tau);
    near(a1, a2, 1e-14);
}

#[test]
fn aba_free_fall() {
    // A single body with gravity should accelerate at g when tau=0
    let model = ModelBuilder::new()
        .add_joint(
            "j1",
            0,
            prismatic_z(),
            se3_identity(),
            LinkInertia {
                mass: 2.0,
                center_of_mass: Vector3::zeros(),
                rotational_inertia: Matrix3::zeros(),
            },
        )
        .build();
    let q = vec![0.0];
    let v = vec![0.0];
    let tau = vec![0.0];
    let qdd = aba(&model, &q, &v, &tau);
    // Should get -9.81 (falling in -Z)
    near(qdd[0], -9.81, 1e-8);
}

#[test]
fn minv_times_vec_matches_crba_inverse() {
    // M⁻¹ τ computed via ABA should match M⁻¹ τ computed via CRBA + LU.
    let model = aba_two_link_arm();
    let q = vec![0.3, -0.5];
    let tau = vec![5.0, -2.0];

    let result_aba = compute_minv_times_vec(&model, &q, &tau);

    let m = crba(&model, &q);
    let m_lu = m.lu();
    let tau_vec = DVector::from_column_slice(&tau);
    let result_crba = m_lu.solve(&tau_vec).unwrap();

    near(result_aba, result_crba, 1e-8);
}

#[test]
fn compute_minv_matches_crba_inverse() {
    // Full M⁻¹ should satisfy M * M⁻¹ = I.
    let model = aba_two_link_arm();
    let q = vec![0.3, -0.5];

    let m = crba(&model, &q);
    let minv = compute_minv(&model, &q);

    let product = &m * &minv;
    let eye = DMatrix::identity(model.nv, model.nv);
    near(product, eye, 1e-8);
}

#[test]
fn minv_is_symmetric() {
    let model = aba_two_link_arm();
    let q = vec![0.3, -0.5];
    let minv = compute_minv(&model, &q);
    near(minv.clone(), minv.transpose(), 1e-10);
}

// ── crba ──

fn crba_two_link_arm() -> Model {
    let offset1 = se3_from_rotation_and_translation(
        &na::Rotation3::identity(),
        &Vector3::new(0.0, 0.0, -0.5),
    );
    let offset2 = se3_from_rotation_and_translation(
        &na::Rotation3::identity(),
        &Vector3::new(0.0, 0.0, -1.0),
    );
    ModelBuilder::new()
        .add_joint(
            "j1",
            0,
            revolute_y(),
            offset1,
            LinkInertia {
                mass: 2.0,
                center_of_mass: Vector3::new(0.0, 0.0, -0.5),
                rotational_inertia: Matrix3::new(
                    0.2, 0.0, 0.0,
                    0.0, 0.2, 0.0,
                    0.0, 0.0, 0.02,
                ),
            },
        )
        .add_joint(
            "j2",
            1,
            revolute_y(),
            offset2,
            LinkInertia {
                mass: 1.0,
                center_of_mass: Vector3::new(0.0, 0.0, -0.5),
                rotational_inertia: Matrix3::new(
                    0.1, 0.0, 0.0,
                    0.0, 0.1, 0.0,
                    0.0, 0.0, 0.01,
                ),
            },
        )
        .build()
}

#[test]
fn crba_is_symmetric() {
    let model = crba_two_link_arm();
    let q = vec![0.3, -0.5];
    let m = crba(&model, &q);
    near(m[(0, 1)], m[(1, 0)], 1e-12);
}

#[test]
fn crba_is_positive_definite() {
    let model = crba_two_link_arm();
    let q = vec![0.3, -0.5];
    let m = crba(&model, &q);
    // Check eigenvalues are positive
    let eig = na::SymmetricEigen::new(m);
    for ev in eig.eigenvalues.iter() {
        assert!(*ev > 0.0, "eigenvalue {} is not positive", ev);
    }
}

#[test]
fn crba_consistent_with_rnea() {
    // M(q) * a = rnea(q, 0, a) - g(q)
    let model = crba_two_link_arm();
    let q = vec![0.3, -0.5];
    let zero = vec![0.0, 0.0];
    let a = vec![1.0, 0.0]; // unit acceleration on joint 1

    let m = crba(&model, &q);
    let g = compute_gravity(&model, &q);
    let tau = rnea(&model, &q, &zero, &a);

    let ma: DVector<f64> = (&m * DVector::from_column_slice(&a)).column(0).into_owned();
    let expected = &tau - &g;

    near(ma, expected, 1e-10);
}

#[test]
fn crba_consistent_with_rnea_joint2() {
    let model = crba_two_link_arm();
    let q = vec![0.3, -0.5];
    let zero = vec![0.0, 0.0];
    let a = vec![0.0, 1.0]; // unit acceleration on joint 2

    let m = crba(&model, &q);
    let g = compute_gravity(&model, &q);
    let tau = rnea(&model, &q, &zero, &a);

    let ma: DVector<f64> = (&m * DVector::from_column_slice(&a)).column(0).into_owned();
    let expected = &tau - &g;

    near(ma, expected, 1e-10);
}

#[test]
fn crba_is_pure() {
    let model = crba_two_link_arm();
    let q = vec![0.3, -0.5];
    let m1 = crba(&model, &q);
    let m2 = crba(&model, &q);
    near(m1, m2, 1e-14);
}

// ── aba_derivatives ──

fn derivatives_two_link_arm() -> Model {
    let offset1 = se3_from_rotation_and_translation(
        &na::Rotation3::identity(),
        &Vector3::new(0.0, 0.0, -0.5),
    );
    let offset2 = se3_from_rotation_and_translation(
        &na::Rotation3::identity(),
        &Vector3::new(0.0, 0.0, -1.0),
    );
    ModelBuilder::new()
        .add_joint(
            "j1", 0, revolute_y(), offset1,
            LinkInertia {
                mass: 2.0,
                center_of_mass: Vector3::new(0.0, 0.0, -0.5),
                rotational_inertia: Matrix3::new(
                    0.2, 0.0, 0.0, 0.0, 0.2, 0.0, 0.0, 0.0, 0.02,
                ),
            },
        )
        .add_joint(
            "j2", 1, revolute_y(), offset2,
            LinkInertia {
                mass: 1.0,
                center_of_mass: Vector3::new(0.0, 0.0, -0.5),
                rotational_inertia: Matrix3::new(
                    0.1, 0.0, 0.0, 0.0, 0.1, 0.0, 0.0, 0.0, 0.01,
                ),
            },
        )
        .build()
}

fn derivatives_three_link_arm() -> Model {
    let offset1 = se3_from_rotation_and_translation(
        &na::Rotation3::identity(),
        &Vector3::new(0.0, 0.0, -0.3),
    );
    let offset2 = se3_from_rotation_and_translation(
        &na::Rotation3::identity(),
        &Vector3::new(0.0, 0.0, -0.5),
    );
    let offset3 = se3_from_rotation_and_translation(
        &na::Rotation3::identity(),
        &Vector3::new(0.0, 0.0, -0.4),
    );
    ModelBuilder::new()
        .add_joint(
            "j1", 0, revolute_y(), offset1,
            LinkInertia {
                mass: 3.0,
                center_of_mass: Vector3::new(0.0, 0.0, -0.25),
                rotational_inertia: Matrix3::new(
                    0.3, 0.0, 0.0, 0.0, 0.3, 0.0, 0.0, 0.0, 0.03,
                ),
            },
        )
        .add_joint(
            "j2", 1, revolute_z(), offset2,
            LinkInertia {
                mass: 2.0,
                center_of_mass: Vector3::new(0.0, 0.0, -0.2),
                rotational_inertia: Matrix3::new(
                    0.2, 0.0, 0.0, 0.0, 0.2, 0.0, 0.0, 0.0, 0.02,
                ),
            },
        )
        .add_joint(
            "j3", 2, revolute_x(), offset3,
            LinkInertia {
                mass: 1.0,
                center_of_mass: Vector3::new(0.0, 0.0, -0.15),
                rotational_inertia: Matrix3::new(
                    0.05, 0.0, 0.0, 0.0, 0.05, 0.0, 0.0, 0.0, 0.01,
                ),
            },
        )
        .build()
}

/// Finite-difference: ∂q̈/∂q.
fn derivatives_fd_ddq_dq(model: &Model, q: &[f64], v: &[f64], tau: &[f64], eps: f64) -> DMatrix<f64> {
    let nv = model.nv;
    let mut result = DMatrix::zeros(nv, nv);
    for k in 0..nv {
        let mut q_p = q.to_vec();
        let mut q_m = q.to_vec();
        q_p[k] += eps;
        q_m[k] -= eps;
        let qdd_p = aba(model, &q_p, v, tau);
        let qdd_m = aba(model, &q_m, v, tau);
        let col = (&qdd_p - &qdd_m) / (2.0 * eps);
        for r in 0..nv { result[(r, k)] = col[r]; }
    }
    result
}

/// Finite-difference: ∂q̈/∂v.
fn derivatives_fd_ddq_dv(model: &Model, q: &[f64], v: &[f64], tau: &[f64], eps: f64) -> DMatrix<f64> {
    let nv = model.nv;
    let mut result = DMatrix::zeros(nv, nv);
    for k in 0..nv {
        let mut v_p = v.to_vec();
        let mut v_m = v.to_vec();
        v_p[k] += eps;
        v_m[k] -= eps;
        let qdd_p = aba(model, q, &v_p, tau);
        let qdd_m = aba(model, q, &v_m, tau);
        let col = (&qdd_p - &qdd_m) / (2.0 * eps);
        for r in 0..nv { result[(r, k)] = col[r]; }
    }
    result
}

// ── ddq_dtau = M⁻¹ ─────────────────────────────────────────────────

#[test]
fn ddq_dtau_equals_minv_two_link() {
    let model = derivatives_two_link_arm();
    let q = [0.3, -0.5]; let v = [1.0, -0.5]; let tau = [5.0, -2.0];
    let derivs = compute_aba_derivatives(&model, &q, &v, &tau);
    let minv = compute_minv(&model, &q);
    near(derivs.ddq_dtau, minv, 1e-8);
}

#[test]
fn ddq_dtau_equals_minv_three_link() {
    let model = derivatives_three_link_arm();
    let q = [0.4, -0.3, 0.2]; let v = [1.0, -0.5, 0.8]; let tau = [3.0, -1.0, 0.5];
    let derivs = compute_aba_derivatives(&model, &q, &v, &tau);
    let minv = compute_minv(&model, &q);
    near(derivs.ddq_dtau, minv, 1e-8);
}

// ── ddq_dq vs finite differences ────────────────────────────────────

#[test]
fn ddq_dq_two_link_vs_fd() {
    let model = derivatives_two_link_arm();
    let q = [0.3, -0.5]; let v = [1.0, -0.5]; let tau = [5.0, -2.0];
    let derivs = compute_aba_derivatives(&model, &q, &v, &tau);
    let fd = derivatives_fd_ddq_dq(&model, &q, &v, &tau, 1e-7);
    near(derivs.ddq_dq, fd, 1e-4);
}

#[test]
fn ddq_dq_three_link_vs_fd() {
    let model = derivatives_three_link_arm();
    let q = [0.4, -0.3, 0.2]; let v = [1.0, -0.5, 0.8]; let tau = [3.0, -1.0, 0.5];
    let derivs = compute_aba_derivatives(&model, &q, &v, &tau);
    let fd = derivatives_fd_ddq_dq(&model, &q, &v, &tau, 1e-7);
    near(derivs.ddq_dq, fd, 1e-4);
}

// ── ddq_dv vs finite differences ────────────────────────────────────

#[test]
fn ddq_dv_two_link_vs_fd() {
    let model = derivatives_two_link_arm();
    let q = [0.3, -0.5]; let v = [1.0, -0.5]; let tau = [5.0, -2.0];
    let derivs = compute_aba_derivatives(&model, &q, &v, &tau);
    let fd = derivatives_fd_ddq_dv(&model, &q, &v, &tau, 1e-7);
    near(derivs.ddq_dv, fd, 1e-4);
}

#[test]
fn ddq_dv_three_link_vs_fd() {
    let model = derivatives_three_link_arm();
    let q = [0.4, -0.3, 0.2]; let v = [1.0, -0.5, 0.8]; let tau = [3.0, -1.0, 0.5];
    let derivs = compute_aba_derivatives(&model, &q, &v, &tau);
    let fd = derivatives_fd_ddq_dv(&model, &q, &v, &tau, 1e-7);
    near(derivs.ddq_dv, fd, 1e-4);
}

// ── Special cases ───────────────────────────────────────────────────

#[test]
fn ddq_dq_zero_velocity_zero_torque() {
    // Free-fall: tau=0, v=0 → q̈ = -g projection. Check derivative.
    let model = derivatives_two_link_arm();
    let q = [0.3, -0.5]; let z = [0.0, 0.0];
    let derivs = compute_aba_derivatives(&model, &q, &z, &z);
    let fd = derivatives_fd_ddq_dq(&model, &q, &z, &z, 1e-7);
    near(derivs.ddq_dq, fd, 1e-4);
}

#[test]
fn ddq_dv_zero_velocity_zero_torque() {
    let model = derivatives_two_link_arm();
    let q = [0.3, -0.5]; let z = [0.0, 0.0];
    let derivs = compute_aba_derivatives(&model, &q, &z, &z);
    let fd = derivatives_fd_ddq_dv(&model, &q, &z, &z, 1e-7);
    near(derivs.ddq_dv, fd, 1e-4);
}

// ── analysis ──

const G: f64 = 9.81;

/// Horizontal 1-link pendulum: revolute-Y joint at the origin, point
/// mass `m` at distance `l` along +X. Holding torque = m·g·l.
fn analysis_pendulum(m: f64, l: f64) -> Model {
    let inertia = LinkInertia {
        mass: m,
        center_of_mass: Vector3::new(l, 0.0, 0.0),
        rotational_inertia: Matrix3::zeros(),
    };
    ModelBuilder::new()
        .gravity(Vector3::new(0.0, 0.0, -G))
        .add_joint("shoulder", 0, revolute_y(), se3_identity(), inertia)
        .build()
}

#[test]
fn gravity_load_matches_analytic_pendulum() {
    let (m, l) = (2.0, 0.5);
    let model = analysis_pendulum(m, l);
    let limits = JointLimits::unbounded(&model);

    let loads = gravity_loads(&model, &[0.0], &limits);
    assert_eq!(loads.len(), 1);
    // Revolute-Y with mass at +X: gravity pulls -Z, holding torque m·g·l.
    near(loads[0].gravity_torque.abs(), m * G * l, 1e-9);
    assert!(loads[0].tau_max.is_infinite());
}

#[test]
fn payload_capacity_matches_analytic_pendulum() {
    let (m, l) = (2.0, 0.5);
    let model = analysis_pendulum(m, l);
    let mut limits = JointLimits::unbounded(&model);
    let tau_max = 30.0;
    limits.tau_max[0] = tau_max;

    // Payload hangs at the joint's own frame end: use the joint itself
    // as the end-effector; lever arm equals the joint origin → attach a
    // second fixed frame? Simplest: the payload acts at the joint frame
    // of `shoulder`'s child link origin (x = 0), so instead test with a
    // child prismatic-free chain: hang at distance l via a fixed-offset
    // revolute chain.
    let inertia_tip = LinkInertia {
        mass: 0.0,
        center_of_mass: Vector3::zeros(),
        rotational_inertia: Matrix3::zeros(),
    };
    let model2 = ModelBuilder::from_model(&model)
        .add_joint(
            "wrist",
            1,
            revolute_y(),
            se3_from_rotation_and_translation(
                &na::Rotation3::identity(),
                &Vector3::new(l, 0.0, 0.0),
            ),
            inertia_tip,
        )
        .build();
    let mut limits2 = JointLimits::unbounded(&model2);
    limits2.tau_max[0] = tau_max;

    let cap = payload_capacity(&model2, &[0.0, 0.0], 2, &limits2).expect("finite capacity");
    // Shoulder already holds m·g·l; payload adds mass_kg·g·l at x = l.
    // m_max = (tau_max - m·g·l) / (g·l)
    let expected = (tau_max - m * G * l) / (G * l);
    near(cap.max_mass_kg, expected, 1e-6);
    assert_eq!(cap.limiting_joint, 1);
}

#[test]
fn utilisation_reaches_one_at_capacity() {
    let (m, l) = (1.0, 0.4);
    let model = analysis_pendulum(m, l);
    let inertia_tip = LinkInertia {
        mass: 0.0,
        center_of_mass: Vector3::zeros(),
        rotational_inertia: Matrix3::zeros(),
    };
    let model2 = ModelBuilder::from_model(&model)
        .add_joint(
            "wrist",
            1,
            revolute_y(),
            se3_from_rotation_and_translation(
                &na::Rotation3::identity(),
                &Vector3::new(l, 0.0, 0.0),
            ),
            inertia_tip,
        )
        .build();
    let mut limits = JointLimits::unbounded(&model2);
    limits.tau_max[0] = 20.0;

    let cap = payload_capacity(&model2, &[0.0, 0.0], 2, &limits).unwrap();
    let util = payload_utilisation(&model2, &[0.0, 0.0], 2, cap.max_mass_kg, &limits);
    let shoulder = util.iter().find(|(ji, _)| *ji == 1).unwrap();
    near(shoulder.1, 1.0, 1e-6);
}

#[test]
fn overloaded_pose_gives_zero_capacity() {
    let (m, l) = (10.0, 1.0);
    let model = analysis_pendulum(m, l);
    let inertia_tip = LinkInertia {
        mass: 0.0,
        center_of_mass: Vector3::zeros(),
        rotational_inertia: Matrix3::zeros(),
    };
    let model2 = ModelBuilder::from_model(&model)
        .add_joint(
            "wrist",
            1,
            revolute_y(),
            se3_from_rotation_and_translation(
                &na::Rotation3::identity(),
                &Vector3::new(l, 0.0, 0.0),
            ),
            inertia_tip,
        )
        .build();
    let mut limits = JointLimits::unbounded(&model2);
    // Gravity alone needs 10·9.81·1 ≈ 98 N·m; allow only 50.
    limits.tau_max[0] = 50.0;

    let cap = payload_capacity(&model2, &[0.0, 0.0], 2, &limits).unwrap();
    assert_eq!(cap.max_mass_kg, 0.0);
}

/// The sign convention of `payload_tau_per_kg` must match RNEA:
/// attaching a real point mass at the end-effector and re-running
/// `compute_gravity` must reproduce `m · tau_per_kg` exactly.
#[test]
fn tau_per_kg_matches_rnea_finite_difference() {
    let (m, l) = (2.0, 0.5);
    let base = analysis_pendulum(m, l);
    let arm = |tip_mass: f64| {
        let tip = LinkInertia {
            mass: tip_mass,
            center_of_mass: Vector3::zeros(),
            rotational_inertia: Matrix3::zeros(),
        };
        ModelBuilder::from_model(&base)
            .add_joint(
                "wrist",
                1,
                revolute_y(),
                se3_from_rotation_and_translation(
                    &na::Rotation3::identity(),
                    &Vector3::new(l, 0.0, 0.0),
                ),
                tip,
            )
            .build()
    };

    let q = [0.3, -0.2];
    let mu = 1.7;
    let g0 = compute_gravity(&arm(0.0), &q);
    let g1 = compute_gravity(&arm(mu), &q);
    let tpk = payload_tau_per_kg(&arm(0.0), &q, 2);

    for v in 0..2 {
        let fd = (g1[v] - g0[v]) / mu;
        near(tpk[v], fd, 1e-9);
    }
}

// ── centroidal ──

/// Build a simple 2-link planar arm.
///
///  universe ─[rev_z, L=1]─ link1 ─[rev_z, L=1]─ link2
///
/// Both links have mass 1 kg, CoM at (0.5, 0, 0) in body frame.
fn centroidal_two_link_arm() -> (Model, Vec<f64>) {
    let link_len = 1.0_f64;
    let half = Vector3::new(0.5, 0.0, 0.0);
    let inertia = LinkInertia {
        mass: 1.0,
        center_of_mass: half,
        rotational_inertia: Matrix3::identity() * 0.1,
    };
    let placement = se3_from_rotation_and_translation(
        &Rotation3::identity(),
        &Vector3::new(link_len, 0.0, 0.0),
    );
    let model = ModelBuilder::new()
        .add_joint("j1", 0, revolute_z(), se3_identity(), inertia.clone())
        .add_joint("j2", 1, revolute_z(), placement, inertia.clone())
        .build();
    let q = vec![0.0, 0.0]; // straight configuration
    (model, q)
}

#[test]
fn total_mass_two_links() {
    let (model, _) = centroidal_two_link_arm();
    near(total_mass(&model), 2.0, 1e-12);
}

#[test]
fn com_straight_arm_at_zero() {
    let (model, q) = centroidal_two_link_arm();
    // j1 at origin, link1 CoM at (0.5, 0, 0)
    // j2 at (1.0, 0, 0), link2 CoM at (1.5, 0, 0)
    // total CoM = ((0.5 + 1.5) / 2, 0, 0) = (1.0, 0, 0)
    let com = compute_com(&model, &q);
    near(com.x, 1.0, 1e-10);
    near(com.y, 0.0, 1e-10);
    near(com.z, 0.0, 1e-10);
}

#[test]
fn com_folded_arm_90_degrees() {
    // q1 = 0, q2 = π/2  →  link2 points upward
    // j2 is at (1, 0, 0); link2 CoM is at (1, 0.5, 0) after rotation
    let (model, _) = centroidal_two_link_arm();
    let q = vec![0.0, std::f64::consts::FRAC_PI_2];
    let com = compute_com(&model, &q);
    // link1 CoM: (0.5, 0, 0)
    // link2 CoM: j2 at (1,0,0) + R(π/2) * (0.5,0,0) = (1,0,0) + (0,0.5,0) = (1, 0.5, 0)
    // mean: ((0.5+1)/2, (0+0.5)/2, 0) = (0.75, 0.25, 0)
    near(com.x, 0.75, 1e-10);
    near(com.y, 0.25, 1e-10);
    near(com.z, 0.0, 1e-10);
}

#[test]
fn com_jacobian_matches_finite_difference() {
    let (model, q) = centroidal_two_link_arm();
    let j_com = compute_com_jacobian(&model, &q);
    let eps = 1e-6_f64;

    for col in 0..model.nv {
        let mut q_plus = q.clone();
        q_plus[col] += eps;
        let mut q_minus = q.clone();
        q_minus[col] -= eps;
        let dp = (compute_com(&model, &q_plus) - compute_com(&model, &q_minus)) / (2.0 * eps);
        let j_col = j_com.column(col);
        near(j_col[0], dp.x, 1e-6);
        near(j_col[1], dp.y, 1e-6);
        near(j_col[2], dp.z, 1e-6);
    }
}

#[test]
fn com_velocity_matches_com_jacobian_times_v() {
    let (model, q) = centroidal_two_link_arm();
    let v = vec![1.0, 2.0];
    let vel = compute_com_velocity(&model, &q, &v);
    let j = compute_com_jacobian(&model, &q);
    let v_vec = DVector::from_column_slice(&v);
    let expected = j * v_vec;
    near(vel.x, expected[0], 1e-12);
    near(vel.y, expected[1], 1e-12);
}

#[test]
fn linear_momentum_equals_mass_times_com_velocity() {
    // h_lin = M * ṗ_com
    let (model, q) = centroidal_two_link_arm();
    let v = vec![1.5, -0.5];
    let h = compute_momentum(&model, &q, &v);
    let p_dot = compute_com_velocity(&model, &q, &v);
    let m = total_mass(&model);
    near(h[3], m * p_dot.x, 1e-10);
    near(h[4], m * p_dot.y, 1e-10);
    near(h[5], m * p_dot.z, 1e-10);
}

#[test]
fn centroidal_inertia_positive_definite_rotation_block() {
    let (model, q) = centroidal_two_link_arm();
    let phi = compute_centroidal_inertia(&model, &q);
    // Top-left 3×3 must be positive definite (all eigenvalues > 0)
    let i_rot = phi.fixed_view::<3, 3>(0, 0).into_owned();
    let sym = (i_rot.clone() + i_rot.transpose()) * 0.5;
    let eig = sym.symmetric_eigen();
    for &ev in eig.eigenvalues.iter() {
        assert!(ev > 0.0, "Eigenvalue {ev} not positive");
    }
}

#[test]
fn centroidal_inertia_linear_block_is_mass_identity() {
    let (model, q) = centroidal_two_link_arm();
    let phi = compute_centroidal_inertia(&model, &q);
    let mass = total_mass(&model);
    let i_lin = phi.fixed_view::<3, 3>(3, 3).into_owned();
    near(i_lin, Matrix3::identity() * mass, 1e-12);
}

#[test]
fn cmm_angular_momentum_finite_difference() {
    // Check the CMM angular rows via finite difference of angular momentum
    // Using a single revolute joint for simplicity
    let inertia = LinkInertia {
        mass: 2.0,
        center_of_mass: Vector3::new(0.3, 0.0, 0.0),
        rotational_inertia: Matrix3::identity() * 0.5,
    };
    let model = ModelBuilder::new()
        .add_joint("j1", 0, revolute_z(), se3_identity(), inertia)
        .build();
    let q = vec![0.3];
    let v = vec![1.0];
    let h = compute_momentum(&model, &q, &v);

    // The angular momentum about the world CoM should be non-zero
    // (body spinning about z with ω=1 rad/s)
    assert!(h[2].abs() > 0.0, "Angular z-momentum should be nonzero");
    // Linear momentum: M * ṗ_com  (body CoM is revolving)
    let p_dot = compute_com_velocity(&model, &q, &v);
    let m = total_mass(&model);
    near(h[3], m * p_dot.x, 1e-10);
    near(h[4], m * p_dot.y, 1e-10);
}

#[test]
fn cmm_time_derivative_zero_velocity_is_zero() {
    let (model, q) = centroidal_two_link_arm();
    let v = vec![0.0, 0.0];
    let da = compute_centroidal_momentum_matrix_time_derivative(&model, &q, &v);
    near(da, DMatrix::zeros(6, model.nv), 1e-10);
}

#[test]
fn cmm_time_derivative_finite_difference() {
    // Validate Ȧ_G via: A_G(q + v*dt) ≈ A_G(q) + Ȧ_G * dt
    let (model, q) = centroidal_two_link_arm();
    let v = vec![1.0, -0.5];
    let da = compute_centroidal_momentum_matrix_time_derivative(&model, &q, &v);

    let dt = 1e-6;
    let q_fwd: Vec<f64> = q.iter().zip(v.iter()).map(|(qi, vi)| qi + vi * dt).collect();
    let a_fwd = compute_centroidal_momentum_matrix(&model, &q_fwd);
    let a_cur = compute_centroidal_momentum_matrix(&model, &q);
    let da_fd = (&a_fwd - &a_cur) / dt;

    near(da, da_fd, 1e-4);
}

#[test]
fn momentum_rate_matches_finite_difference() {
    // ḣ ≈ (h(q+v*dt, v+a*dt) − h(q, v)) / dt
    let (model, q) = centroidal_two_link_arm();
    let v = vec![1.0, -0.5];
    let a = vec![0.5, 0.2];
    let h_dot = compute_momentum_rate(&model, &q, &v, &a);

    let dt = 1e-6;
    let q_fwd: Vec<f64> = q.iter().zip(v.iter()).map(|(qi, vi)| qi + vi * dt).collect();
    let v_fwd: Vec<f64> = v.iter().zip(a.iter()).map(|(vi, ai)| vi + ai * dt).collect();

    let h0 = compute_momentum(&model, &q, &v);
    let h1 = compute_momentum(&model, &q_fwd, &v_fwd);
    let h_dot_fd = (h1 - h0) / dt;

    near(h_dot[0], h_dot_fd[0], 1e-3);
    near(h_dot[1], h_dot_fd[1], 1e-3);
    near(h_dot[2], h_dot_fd[2], 1e-3);
    near(h_dot[3], h_dot_fd[3], 1e-3);
    near(h_dot[4], h_dot_fd[4], 1e-3);
    near(h_dot[5], h_dot_fd[5], 1e-3);
}

// ── constrained ──

fn constrained_two_link_arm() -> Model {
    let offset = se3_from_rotation_and_translation(
        &na::Rotation3::identity(),
        &Vector3::new(0.0, 0.0, -1.0),
    );
    ModelBuilder::new()
        .add_joint(
            "j1",
            0,
            revolute_y(),
            offset.clone(),
            LinkInertia {
                mass: 2.0,
                center_of_mass: Vector3::new(0.0, 0.0, -0.5),
                rotational_inertia: Matrix3::identity() * 0.2,
            },
        )
        .add_joint(
            "j2",
            1,
            revolute_y(),
            offset,
            LinkInertia {
                mass: 1.0,
                center_of_mass: Vector3::new(0.0, 0.0, -0.5),
                rotational_inertia: Matrix3::identity() * 0.1,
            },
        )
        .build()
}

#[test]
fn unconstrained_matches_aba() {
    // With no constraints (empty Jc), constrained dynamics should
    // match the unconstrained ABA result.
    let model = constrained_two_link_arm();
    let q = vec![0.3, -0.5];
    let v = vec![1.0, -0.5];
    let tau = vec![5.0, -2.0];

    let jc = DMatrix::zeros(0, model.nv);
    let gamma = DVector::zeros(0);

    let result = constrained_forward_dynamics(&model, &q, &v, &tau, &jc, &gamma);
    let qdd_aba = aba(&model, &q, &v, &tau);

    near(result.qdd, qdd_aba, 1e-8);
}

#[test]
fn constraint_is_satisfied() {
    // Fix joint 1 via a constraint: Jc = [1, 0], meaning q̈₁ = 0.
    let model = constrained_two_link_arm();
    let q = vec![0.0, 0.0];
    let v = vec![0.0, 0.0];
    let tau = vec![0.0, 0.0];

    let mut jc = DMatrix::zeros(1, model.nv);
    jc[(0, 0)] = 1.0; // constrain DOF 0
    let gamma = DVector::zeros(1);

    let result = constrained_forward_dynamics(&model, &q, &v, &tau, &jc, &gamma);

    // q̈₁ should be 0 (constrained)
    near(result.qdd[0], 0.0, 1e-10);
    // λ should be non-zero (gravity force must be balanced by constraint)
    // The constraint force balances gravity on DOF 0
}

#[test]
fn constraint_force_direction() {
    // Constrain both DOFs: system is fully locked.
    // λ should equal the negative of the unconstrained rhs for those DOFs.
    let model = constrained_two_link_arm();
    let q = vec![0.3, -0.2];
    let v = vec![0.0, 0.0];
    let tau = vec![0.0, 0.0];

    let jc = DMatrix::identity(model.nv, model.nv);
    let gamma = DVector::zeros(model.nv);

    let result = constrained_forward_dynamics(&model, &q, &v, &tau, &jc, &gamma);

    // Both accelerations must be zero
    near(result.qdd[0], 0.0, 1e-10);
    near(result.qdd[1], 0.0, 1e-10);

    // From KKT: Jcᵀ λ = τ - h → λ = τ - h = -h (since Jc = I, τ = 0)
    let g = compute_gravity(&model, &q);
    near(result.lambda[0], -g[0], 1e-8);
    near(result.lambda[1], -g[1], 1e-8);
}

#[test]
fn impact_plastic_stops_motion() {
    // Perfectly plastic impact (e=0) with full-rank contact Jacobian
    // should stop all constrained velocity.
    let model = constrained_two_link_arm();
    let q = vec![0.0, 0.0];
    let v_pre = vec![1.0, -0.5];

    let mut jc = DMatrix::zeros(1, model.nv);
    jc[(0, 0)] = 1.0; // constraint on DOF 0

    let result = impact_dynamics(&model, &q, &v_pre, &jc, 0.0);

    // Post-impact: Jc * v⁺ = 0
    let constraint_vel = &jc * &result.v_post;
    near(constraint_vel[0], 0.0, 1e-10);
}

#[test]
fn impact_elastic_reverses_velocity() {
    // Perfectly elastic impact (e=1): Jc * v⁺ = -Jc * v⁻
    let model = constrained_two_link_arm();
    let q = vec![0.0, 0.0];
    let v_pre = vec![1.0, 0.0];

    let mut jc = DMatrix::zeros(1, model.nv);
    jc[(0, 0)] = 1.0;

    let result = impact_dynamics(&model, &q, &v_pre, &jc, 1.0);

    let jc_v_pre = &jc * &DVector::from_column_slice(&v_pre);
    let jc_v_post = &jc * &result.v_post;
    near(jc_v_post[0], -jc_v_pre[0], 1e-10);
}

#[test]
fn impact_conserves_momentum_zero_restitution() {
    // For e=0, M v⁺ = M v⁻ + Jcᵀ Λ
    let model = constrained_two_link_arm();
    let q = vec![0.3, -0.2];
    let v_pre = vec![2.0, -1.0];

    let mut jc = DMatrix::zeros(1, model.nv);
    jc[(0, 0)] = 1.0;

    let result = impact_dynamics(&model, &q, &v_pre, &jc, 0.0);

    // From KKT: M v⁺ + Jcᵀ Λ = M v⁻ → M v⁺ = M v⁻ − Jcᵀ Λ
    let m = crba(&model, &q);
    let v_pre_vec = DVector::from_column_slice(&v_pre);
    let lhs = &m * &result.v_post;
    let rhs = &m * &v_pre_vec - jc.transpose() * &result.impulse;
    near(lhs, rhs, 1e-10);
}

// ── coriolis ──

fn coriolis_pendulum() -> Model {
    let offset = se3_from_rotation_and_translation(
        &na::Rotation3::identity(),
        &Vector3::new(0.0, 0.0, -0.5),
    );
    ModelBuilder::new()
        .add_joint("j1", 0, revolute_y(), offset, LinkInertia {
            mass: 1.0,
            center_of_mass: Vector3::new(0.0, 0.0, -0.5),
            rotational_inertia: Matrix3::new(
                0.1, 0.0, 0.0,
                0.0, 0.1, 0.0,
                0.0, 0.0, 0.01,
            ),
        })
        .build()
}

fn coriolis_two_link() -> Model {
    let off1 = se3_from_rotation_and_translation(
        &na::Rotation3::identity(),
        &Vector3::new(0.0, 0.0, -0.5),
    );
    let off2 = se3_from_rotation_and_translation(
        &na::Rotation3::identity(),
        &Vector3::new(0.0, 0.0, -1.0),
    );
    ModelBuilder::new()
        .add_joint("j1", 0, revolute_y(), off1, LinkInertia {
            mass: 2.0,
            center_of_mass: Vector3::new(0.0, 0.0, -0.5),
            rotational_inertia: Matrix3::new(
                0.2, 0.01, 0.0,
                0.01, 0.2, 0.0,
                0.0, 0.0, 0.02,
            ),
        })
        .add_joint("j2", 1, revolute_y(), off2, LinkInertia {
            mass: 1.0,
            center_of_mass: Vector3::new(0.0, 0.0, -0.5),
            rotational_inertia: Matrix3::new(
                0.1, 0.0, 0.005,
                0.0, 0.1, 0.0,
                0.005, 0.0, 0.01,
            ),
        })
        .build()
}

fn coriolis_three_link() -> Model {
    let off1 = se3_from_rotation_and_translation(
        &na::Rotation3::identity(),
        &Vector3::new(0.0, 0.0, -0.3),
    );
    let off2 = se3_from_rotation_and_translation(
        &na::Rotation3::identity(),
        &Vector3::new(0.0, 0.0, -0.5),
    );
    let off3 = se3_from_rotation_and_translation(
        &na::Rotation3::identity(),
        &Vector3::new(0.0, 0.0, -0.4),
    );
    ModelBuilder::new()
        .add_joint("j1", 0, revolute_z(), off1, LinkInertia {
            mass: 3.0,
            center_of_mass: Vector3::new(0.1, 0.0, -0.15),
            rotational_inertia: Matrix3::new(
                0.3, 0.01, 0.0,
                0.01, 0.3, 0.02,
                0.0, 0.02, 0.05,
            ),
        })
        .add_joint("j2", 1, revolute_y(), off2, LinkInertia {
            mass: 2.0,
            center_of_mass: Vector3::new(0.0, 0.05, -0.25),
            rotational_inertia: Matrix3::new(
                0.2, 0.0, 0.01,
                0.0, 0.2, 0.0,
                0.01, 0.0, 0.03,
            ),
        })
        .add_joint("j3", 2, revolute_x(), off3, LinkInertia {
            mass: 1.0,
            center_of_mass: Vector3::new(0.0, 0.0, -0.2),
            rotational_inertia: Matrix3::new(
                0.1, 0.0, 0.0,
                0.0, 0.1, 0.0,
                0.0, 0.0, 0.01,
            ),
        })
        .build()
}

/// C(q,v) v should equal nle(q,v) - g(q)
#[test]
fn coriolis_times_v_equals_nle_minus_gravity_pendulum() {
    let model = coriolis_pendulum();
    let q = vec![0.7];
    let v = vec![2.0];

    let c = compute_coriolis_matrix(&model, &q, &v);
    let cv = &c * DVector::from_column_slice(&v);

    let nle = nonlinear_effects(&model, &q, &v);
    let g = compute_gravity(&model, &q);
    let expected = &nle - &g;

    near(cv, expected, 1e-6);
}

/// C(q,v) v should equal nle(q,v) - g(q) for a 2-link arm
#[test]
fn coriolis_times_v_equals_nle_minus_gravity_two_link() {
    let model = coriolis_two_link();
    let q = vec![0.3, -0.5];
    let v = vec![1.0, -0.5];

    let c = compute_coriolis_matrix(&model, &q, &v);
    let cv = &c * DVector::from_column_slice(&v);

    let nle = nonlinear_effects(&model, &q, &v);
    let g = compute_gravity(&model, &q);
    let expected = &nle - &g;

    near(cv, expected, 1e-6);
}

/// C(q,v) v should equal nle(q,v) - g(q) for a 3-link arm
#[test]
fn coriolis_times_v_equals_nle_minus_gravity_three_link() {
    let model = coriolis_three_link();
    let q = vec![0.5, -0.3, 1.2];
    let v = vec![0.8, -1.0, 0.3];

    let c = compute_coriolis_matrix(&model, &q, &v);
    let cv = &c * DVector::from_column_slice(&v);

    let nle = nonlinear_effects(&model, &q, &v);
    let g = compute_gravity(&model, &q);
    let expected = &nle - &g;

    near(cv, expected, 1e-6);
}

/// Skew-symmetry: Ṁ − 2C should be skew-symmetric (passivity property).
/// We test: v^T (Ṁ − 2C) v = 0 for arbitrary v.
#[test]
fn skew_symmetry_property_two_link() {
    let model = coriolis_two_link();
    let q = vec![0.3, -0.5];
    let v = vec![1.0, -0.5];
    let eps = 1e-8;

    // Ṁ ≈ (M(q + v*dt) - M(q - v*dt)) / (2*dt)
    let mut q_plus = q.clone();
    let mut q_minus = q.clone();
    for i in 0..model.nv {
        q_plus[i] += v[i] * eps;
        q_minus[i] -= v[i] * eps;
    }
    let m_plus = crba(&model, &q_plus);
    let m_minus = crba(&model, &q_minus);
    let m_dot = (&m_plus - &m_minus) / (2.0 * eps);

    let c = compute_coriolis_matrix(&model, &q, &v);
    let n_mat = &m_dot - 2.0 * &c;

    // v^T N v should be zero
    let vv = DVector::from_column_slice(&v);
    let vt_n_v = vv.dot(&(&n_mat * &vv));
    assert!(vt_n_v.abs() < 1e-5, "v^T (Ṁ-2C) v = {} (should be ~0)", vt_n_v);
}

/// Skew-symmetry for 3-link
#[test]
fn skew_symmetry_property_three_link() {
    let model = coriolis_three_link();
    let q = vec![0.5, -0.3, 1.2];
    let v = vec![0.8, -1.0, 0.3];
    let eps = 1e-8;

    let mut q_plus = q.clone();
    let mut q_minus = q.clone();
    for i in 0..model.nv {
        q_plus[i] += v[i] * eps;
        q_minus[i] -= v[i] * eps;
    }
    let m_plus = crba(&model, &q_plus);
    let m_minus = crba(&model, &q_minus);
    let m_dot = (&m_plus - &m_minus) / (2.0 * eps);

    let c = compute_coriolis_matrix(&model, &q, &v);
    let n_mat = &m_dot - 2.0 * &c;

    let vv = DVector::from_column_slice(&v);
    let vt_n_v = vv.dot(&(&n_mat * &vv));
    assert!(vt_n_v.abs() < 1e-5, "v^T (Ṁ-2C) v = {} (should be ~0)", vt_n_v);
}

/// C should be zero when v is zero
#[test]
fn coriolis_zero_velocity() {
    let model = coriolis_two_link();
    let q = vec![0.3, -0.5];
    let v = vec![0.0, 0.0];

    let c = compute_coriolis_matrix(&model, &q, &v);
    near(c, DMatrix::zeros(2, 2), 1e-10);
}

/// C is linear in v: C(q, αv) = α C(q, v)
#[test]
fn coriolis_linearity_in_velocity() {
    let model = coriolis_two_link();
    let q = vec![0.3, -0.5];
    let v = vec![1.0, -0.5];
    let alpha = 3.0;
    let v_scaled: Vec<f64> = v.iter().map(|x| x * alpha).collect();

    let c = compute_coriolis_matrix(&model, &q, &v);
    let c_scaled = compute_coriolis_matrix(&model, &q, &v_scaled);

    near(c_scaled, c * alpha, 1e-5);
}

/// Shape should be nv × nv
#[test]
fn coriolis_shape() {
    let model = coriolis_three_link();
    let q = vec![0.0; 3];
    let v = vec![0.0; 3];
    let c = compute_coriolis_matrix(&model, &q, &v);
    assert_eq!(c.nrows(), 3);
    assert_eq!(c.ncols(), 3);
}

// ── geometry ──

#[test]
fn empty_geometry_model() {
    let gm = GeometryModel::new();
    assert_eq!(gm.num_objects(), 0);
}

#[test]
fn add_and_find_objects() {
    let mut gm = GeometryModel::new();
    let idx = gm.add(object("base_box", 0, se3_identity(), GeometryShape::Box { x: 0.2, y: 0.2, z: 0.1, }));
    assert_eq!(idx, 0);
    assert_eq!(gm.num_objects(), 1);
    assert_eq!(gm.find_by_name("base_box"), Some(0));
    assert_eq!(gm.find_by_name("nonexistent"), None);
}

#[test]
fn objects_for_joint_filter() {
    let mut gm = GeometryModel::new();
    gm.add(object("a", 0, se3_identity(), GeometryShape::Sphere { radius: 0.1 }));
    gm.add(object("b", 1, se3_identity(), GeometryShape::Cylinder { radius: 0.02, length: 0.2, }));
    gm.add(object("c", 0, se3_identity(), GeometryShape::Capsule { radius: 0.05, length: 0.3, }));

    assert_eq!(gm.objects_for_joint(0), vec![0, 2]);
    assert_eq!(gm.objects_for_joint(1), vec![1]);
    assert!(gm.objects_for_joint(99).is_empty());
}

#[test]
fn all_shape_variants() {
    // Verify all shape variants can be constructed
    let shapes = vec![
        GeometryShape::Box {
            x: 1.0,
            y: 2.0,
            z: 3.0,
        },
        GeometryShape::Sphere { radius: 0.5 },
        GeometryShape::Cylinder {
            radius: 0.1,
            length: 1.0,
        },
        GeometryShape::Capsule {
            radius: 0.1,
            length: 1.0,
        },
        GeometryShape::Cone {
            radius: 0.1,
            length: 0.5,
        },
        GeometryShape::Mesh {
            filename: "robot.stl".into(),
            scale: na::Vector3::new(1.0, 1.0, 1.0),
        },
    ];
    assert_eq!(shapes.len(), 6);
}

// ── collision ──

fn collision_two_joint_model() -> Model {
    ModelBuilder::new()
        .add_joint(
            "j1",
            0,
            revolute_z(),
            se3_identity(),
            LinkInertia::zero(),
        )
        .add_joint(
            "j2",
            1,
            JointType::Fixed,
            se3_from_rotation_and_translation(
                &Rotation3::identity(),
                &Vector3::new(1.5, 0.0, 0.0),
            ),
            LinkInertia::zero(),
        )
        .build()
}

#[test]
fn overlapping_spheres_collide() {
    let model = collision_two_joint_model();
    let mut gm = GeometryModel::new();

    gm.add(object("s1", 1, se3_identity(), GeometryShape::Sphere { radius: 1.0 }));

    gm.add(object("s2", 2, se3_identity(), GeometryShape::Sphere { radius: 1.0 }));

    let q = vec![0.0];
    assert!(has_collision(&model, &gm, &q, false));
    assert_eq!(collision_pairs(&model, &gm, &q, false), vec![CollisionPair { a: 0, b: 1 }]);
}

#[test]
fn separated_spheres_no_collision() {
    let model = collision_two_joint_model();
    let mut gm = GeometryModel::new();

    gm.add(object("s1", 1, se3_identity(), GeometryShape::Sphere { radius: 0.4 }));

    gm.add(object("s2", 2, se3_identity(), GeometryShape::Sphere { radius: 0.4 }));

    let q = vec![0.0];
    assert!(!has_collision(&model, &gm, &q, false));
    assert!(collision_pairs(&model, &gm, &q, false).is_empty());
}

#[test]
fn minimum_distance_matches_expected_for_spheres() {
    let model = collision_two_joint_model();
    let mut gm = GeometryModel::new();

    gm.add(object("s1", 1, se3_identity(), GeometryShape::Sphere { radius: 0.5 }));

    gm.add(object("s2", 2, se3_identity(), GeometryShape::Sphere { radius: 0.5 }));

    let q = vec![0.0];
    // center distance = 1.5, radii sum = 1.0 => distance 0.5
    let d = minimum_distance(&model, &gm, &q, false).unwrap();
    near(d, 0.5, 1e-9);
}

/// Same joint index → always adjacent, excluded when flag is set.
#[test]
fn ignore_adjacent_excludes_same_joint() {
    let model = collision_two_joint_model();
    let mut gm = GeometryModel::new();

    gm.add(object("a", 1, se3_identity(), GeometryShape::Sphere { radius: 1.0 }));
    gm.add(object("b", 1, se3_identity(), GeometryShape::Sphere { radius: 1.0 }));

    let q = vec![0.0];
    assert!(has_collision(&model, &gm, &q, false));
    assert!(!has_collision(&model, &gm, &q, true));
}

/// Parent joint (1) and child joint (2) are adjacent → excluded even though
/// the spheres overlap, because the links are physically connected.
#[test]
fn ignore_adjacent_excludes_parent_child_joint() {
    // Spheres on joint 1 and joint 2; joint 2's parent is joint 1.
    // With ignore=false the overlap is reported; with ignore=true it is skipped.
    let model = collision_two_joint_model();
    let mut gm = GeometryModel::new();

    gm.add(object("link1_geom", 1, se3_identity(), GeometryShape::Sphere { radius: 1.0 }));
    gm.add(object("link2_geom", 2, se3_identity(), GeometryShape::Sphere { radius: 1.0 }));

    let q = vec![0.0];
    // Centers are 1.5 m apart, each radius 1.0 m → overlap, reported without filter
    assert!(has_collision(&model, &gm, &q, false));
    // Parent–child pair → excluded with filter
    assert!(!has_collision(&model, &gm, &q, true));
}

/// Non-adjacent joints (e.g. joints 1 and 2 when a 3rd joint exists between
/// them and the target) are NOT excluded even with the flag set.
#[test]
fn non_adjacent_joints_still_detected() {
    // 3-link chain: j1 → j2 → j3. Geometries on j1 and j3 are not adjacent.
    let model = ModelBuilder::new()
        .add_joint("j1", 0, revolute_z(), se3_identity(), LinkInertia::zero())
        .add_joint(
            "j2", 1, JointType::Fixed,
            se3_from_rotation_and_translation(&Rotation3::identity(), &Vector3::new(0.5, 0.0, 0.0)),
            LinkInertia::zero(),
        )
        .add_joint(
            "j3", 2, JointType::Fixed,
            se3_from_rotation_and_translation(&Rotation3::identity(), &Vector3::new(0.5, 0.0, 0.0)),
            LinkInertia::zero(),
        )
        .build();

    let mut gm = GeometryModel::new();
    gm.add(object("a", 1, se3_identity(), GeometryShape::Sphere { radius: 0.8 }));
    gm.add(object("b", 3, se3_identity(), GeometryShape::Sphere { radius: 0.8 }));

    let q = vec![0.0];
    // j1 and j3 are NOT direct parent-child → still reported even with flag
    assert!(has_collision(&model, &gm, &q, true));
}

// ─── ACM tests ─────────────────────────────────────────────────────────

#[test]
fn acm_allow_pair_suppresses_collision() {
    let model = collision_two_joint_model();
    let mut gm = GeometryModel::new();
    gm.add(object("s1", 1, se3_identity(), GeometryShape::Sphere { radius: 1.0 }));
    gm.add(object("s2", 2, se3_identity(), GeometryShape::Sphere { radius: 1.0 }));

    let q = vec![0.0];
    // Without ACM: collision detected
    assert!(has_collision_acm(&model, &gm, &q, None));

    // With ACM allowing (0,1): suppressed
    let mut acm = AllowedCollisionMatrix::new();
    acm.allow(0, 1);
    assert!(!has_collision_acm(&model, &gm, &q, Some(&acm)));
}

#[test]
fn acm_from_adjacent_links_builds_correctly() {
    let model = collision_two_joint_model();
    let mut gm = GeometryModel::new();
    // Both objects on joint 1 (same → adjacent)
    gm.add(object("a", 1, se3_identity(), GeometryShape::Sphere { radius: 1.0 }));
    gm.add(object("b", 1, se3_identity(), GeometryShape::Sphere { radius: 1.0 }));

    let q = vec![0.0];
    let acm = AllowedCollisionMatrix::from_adjacent_links(&model, &gm);
    assert!(acm.is_allowed(0, 1));
    assert!(!has_collision_acm(&model, &gm, &q, Some(&acm)));
}

#[test]
fn minimum_distance_acm_returns_pair_and_distance() {
    let model = collision_two_joint_model();
    let mut gm = GeometryModel::new();
    gm.add(object("s1", 1, se3_identity(), GeometryShape::Sphere { radius: 0.5 }));
    gm.add(object("s2", 2, se3_identity(), GeometryShape::Sphere { radius: 0.5 }));

    let q = vec![0.0];
    let (pair, d) = minimum_distance_acm(&model, &gm, &q, None).unwrap();
    assert_eq!(pair, CollisionPair { a: 0, b: 1 });
    near(d, 0.5, 1e-9);
}

#[test]
fn collision_potential_positive_when_inside_margin() {
    let model = collision_two_joint_model();
    let mut gm = GeometryModel::new();
    gm.add(object("s1", 1, se3_identity(), GeometryShape::Sphere { radius: 0.5 }));
    gm.add(object("s2", 2, se3_identity(), GeometryShape::Sphere { radius: 0.5 }));

    let q = vec![0.0]; // distance = 0.5
    let v = collision_potential(&model, &gm, &q, None, 1.0); // margin=1.0 > distance
    assert!(v > 0.0, "Potential should be positive within margin");
}

#[test]
fn collision_potential_zero_when_outside_margin() {
    let model = collision_two_joint_model();
    let mut gm = GeometryModel::new();
    gm.add(object("s1", 1, se3_identity(), GeometryShape::Sphere { radius: 0.1 }));
    gm.add(object("s2", 2, se3_identity(), GeometryShape::Sphere { radius: 0.1 }));

    let q = vec![0.0]; // distance = 1.5 - 0.2 = 1.3
    let v = collision_potential(&model, &gm, &q, None, 0.5); // margin=0.5 < 1.3
    assert_eq!(v, 0.0, "Potential should be zero outside margin");
}

// ── ik ──

fn ik_two_link_planar() -> Model {
    ModelBuilder::new()
        .add_joint(
            "j1",
            0,
            revolute_z(),
            se3_identity(),
            LinkInertia::zero(),
        )
        .add_joint(
            "j2",
            1,
            revolute_z(),
            se3_from_rotation_and_translation(&na::Rotation3::identity(), &Vector3::new(1.0, 0.0, 0.0)),
            LinkInertia::zero(),
        )
        .build()
}

#[test]
fn position_ik_reaches_target() {
    let model = ik_two_link_planar();
    let q0 = vec![0.1, -0.3];
    let target = Vector3::new(0.8, 0.6, 0.0);

    let cfg = IkConfig {
        max_iters: 200,
        tol_error: 1e-8,
        tol_step: 1e-10,
        step_size: 0.8,
        damping: Damping::Fixed(1e-3),
        joint_limits: None,
        ..IkConfig::default()
    };

    let result = solve_joint_position_ik(&model, &q0, 2, target, &cfg);
    assert_eq!(result.status, IkStatus::Converged);

    let data = forward_kinematics(&model, &result.q);
    let p = se3_translation(&data.oMi[2]);
    near(p[0], target[0], 1e-4);
    near(p[1], target[1], 1e-4);
}

#[test]
fn orientation_ik_single_joint() {
    let model = ModelBuilder::new()
        .add_joint(
            "j1",
            0,
            revolute_z(),
            se3_identity(),
            LinkInertia::zero(),
        )
        .build();
    let q0 = vec![0.0];
    let target = UnitQuaternion::from_axis_angle(&Vector3::z_axis(), std::f64::consts::FRAC_PI_2);

    let result = solve_joint_orientation_ik(&model, &q0, 1, target, &IkConfig::default());
    assert_eq!(result.status, IkStatus::Converged);
    near(result.q[0], std::f64::consts::FRAC_PI_2, 1e-4);
}

#[test]
fn pose_ik_freeflyer_converges() {
    let model = ModelBuilder::new()
        .add_joint(
            "base",
            0,
            JointType::FreeFlyer,
            se3_identity(),
            LinkInertia::zero(),
        )
        .build();

    let q0 = vec![0.0, 0.0, 0.0, 0.0, 0.0, 0.0, 1.0];
    let target = Isometry3::from_parts(
        na::Translation3::new(0.4, -0.2, 0.3),
        UnitQuaternion::from_axis_angle(&Vector3::z_axis(), 0.3),
    );

    let result = solve_joint_pose_ik(&model, &q0, 1, target, &IkConfig::default());
    assert_eq!(result.status, IkStatus::Converged);
    assert!(result.final_error_norm < 1e-6);
}

#[test]
fn adaptive_damping_position_ik() {
    let model = ik_two_link_planar();
    let q0 = vec![0.0, 0.0];
    let target = Vector3::new(0.6, 0.8, 0.0);

    let cfg = IkConfig {
        damping: Damping::AdaptiveManipulability {
            lambda_min: 1e-4,
            lambda_max: 1e-1,
            manipulability_threshold: 1e-2,
        },
        ..IkConfig::default()
    };

    let result = solve_joint_position_ik(&model, &q0, 2, target, &cfg);
    assert_eq!(result.status, IkStatus::Converged);
}

#[test]
fn impossible_target_returns_max_iterations() {
    let model = ik_two_link_planar();
    let q0 = vec![0.0, 0.0];
    let target = Vector3::new(10.0, 0.0, 0.0);

    let cfg = IkConfig {
        max_iters: 20,
        ..IkConfig::default()
    };

    let result = solve_joint_position_ik(&model, &q0, 2, target, &cfg);
    assert_eq!(result.status, IkStatus::MaxIterations);
}

#[test]
fn ik_respects_joint_limits() {
    let model = ik_two_link_planar();
    let q0 = vec![0.0, 0.0];
    let target = Vector3::new(0.0, 1.0, 0.0);

    let mut limits = JointLimits::unbounded(&model);
    // Lock first joint near zero; solver should not violate this bound.
    limits.q_min[0] = -0.1;
    limits.q_max[0] = 0.1;
    limits.v_max[0] = 0.05;

    let cfg = IkConfig {
        max_iters: 150,
        joint_limits: Some(limits.clone()),
        ..IkConfig::default()
    };

    let result = solve_joint_position_ik(&model, &q0, 2, target, &cfg);
    assert!(result.q[0] >= limits.q_min[0] - 1e-12);
    assert!(result.q[0] <= limits.q_max[0] + 1e-12);
}

#[test]
fn nullspace_posture_bias_moves_toward_reference() {
    let model = ik_two_link_planar();
    let q0 = vec![0.0, 0.0];
    let target = Vector3::new(1.5, 0.0, 0.0);
    let q_ref = vec![0.0, 1.0];

    let cfg = IkConfig {
        max_iters: 120,
        step_size: 0.8,
        damping: Damping::Fixed(1e-3),
        ..IkConfig::default()
    };

    let no_bias = solve_joint_position_ik(&model, &q0, 2, target, &cfg);
    let with_bias = solve_joint_position_ik_with_posture(&model, &q0, 2, target, &q_ref, 0.15, &cfg);

    let d_no = (no_bias.q[1] - q_ref[1]).abs();
    let d_yes = (with_bias.q[1] - q_ref[1]).abs();
    assert!(d_yes < d_no);
}

#[test]
fn prioritized_two_task_keeps_primary_accuracy() {
    let model = ik_two_link_planar();
    let q0 = vec![0.2, -0.4];

    let primary_target = Vector3::new(0.8, 0.6, 0.0);
    let secondary_target = Vector3::new(0.4, 0.7, 0.0);

    let cfg = IkConfig {
        max_iters: 180,
        step_size: 0.8,
        damping: Damping::Fixed(1e-3),
        ..IkConfig::default()
    };

    let res = solve_two_task_position_ik(
        &model,
        &q0,
        2,
        primary_target,
        1,
        secondary_target,
        0.5,
        &cfg,
    );

    // Primary task must remain accurate.
    let data = forward_kinematics(&model, &res.q);
    let p_primary = se3_translation(&data.oMi[2]);
    near(p_primary[0], primary_target[0], 1e-3);
    near(p_primary[1], primary_target[1], 1e-3);
}

#[test]
fn collision_aware_ik_reduces_potential_vs_plain_ik() {

    // 2-link arm; add a large obstacle sphere at the mid-point of link 2
    // so that naive IK runs into it.
    let model = ik_two_link_planar();

    let mut gm = GeometryModel::new();
    // Link 1 geometry (small sphere at joint 1)
    gm.add(object("link1", 1, se3_identity(), GeometryShape::Sphere { radius: 0.1 }));
    // Link 2 geometry (small sphere at joint 2)
    gm.add(object("link2", 2, se3_identity(), GeometryShape::Sphere { radius: 0.1 }));

    let target = Vector3::new(0.5, 0.8, 0.0);
    let q0 = vec![0.0, 0.0];

    let cfg = IkConfig {
        max_iters: 80,
        step_size: 0.5,
        damping: Damping::Fixed(1e-2),
        ..IkConfig::default()
    };

    // Plain IK (no collision avoidance)
    let plain_result = solve_joint_position_ik(&model, &q0, 2, target, &cfg);

    // Collision-aware IK with a safety margin that activates between the two spheres
    let acm = AllowedCollisionMatrix::from_adjacent_links(&model, &gm);
    let cc = CollisionConfig {
        safety_margin: 0.5,
        collision_weight: 2.0,
        acm: Some(acm.clone()),
        ..CollisionConfig::default()
    };
    let ca_result = solve_joint_position_ik_with_collision_avoidance(
        &model, &gm, &q0, 2, target, &cc, &cfg,
    );

    // The collision-aware result should have lower or equal potential
    let v_plain = collision_potential(&model, &gm, &plain_result.q, Some(&acm), cc.safety_margin);
    let v_ca = collision_potential(&model, &gm, &ca_result.q, Some(&acm), cc.safety_margin);
    assert!(
        v_ca <= v_plain + 1e-9,
        "Collision-aware IK (V={v_ca:.4}) should have ≤ potential than plain IK (V={v_plain:.4})",
    );
}

#[test]
fn configuration_is_collision_free_detects_collision() {

    let model = ik_two_link_planar();
    let mut gm = GeometryModel::new();
    // Two large spheres — they will overlap at q=0
    gm.add(object("s1", 1, se3_identity(), GeometryShape::Sphere { radius: 0.8 }));
    gm.add(object("s2", 2, se3_identity(), GeometryShape::Sphere { radius: 0.8 }));

    let acm = AllowedCollisionMatrix::from_adjacent_links(&model, &gm);
    // j1 and j2 are adjacent (parent-child) → allowed → still appears collision-free
    assert!(configuration_is_collision_free(&model, &gm, &[0.0, 0.0], Some(&acm)));

    // Without ACM: the adjacent collision is reported
    assert!(!configuration_is_collision_free(&model, &gm, &[0.0, 0.0], None));
}

#[test]
fn jt_solver_converges() {
    let model = ik_two_link_planar();
    let q0 = vec![0.1, -0.3];
    let target = Vector3::new(0.8, 0.6, 0.0);
    let cfg = IkConfig {
        max_iters: 500,
        tol_error: 1e-4,
        step_size: 0.5,
        solver_method: SolverMethod::JacobianTranspose,
        ..IkConfig::default()
    };
    let result = solve_joint_position_ik(&model, &q0, 2, target, &cfg);
    assert_eq!(result.status, IkStatus::Converged);
}

#[test]
fn weighted_ik_prefers_cheap_joints() {
    let model = ik_two_link_planar();
    let q0 = vec![0.0, 0.0];
    let target = Vector3::new(0.8, 0.6, 0.0);

    // Uniform: both joints move freely
    let cfg_uniform = IkConfig {
        max_iters: 200,
        tol_error: 1e-6,
        step_size: 0.8,
        damping: Damping::Fixed(1e-3),
        ..IkConfig::default()
    };
    let res_uniform = solve_joint_position_ik(&model, &q0, 2, target, &cfg_uniform);

    // Weighted: joint 0 is very expensive (weight=100), joint 1 is cheap (weight=1)
    let cfg_weighted = IkConfig {
        joint_weights: Some(JointWeights { weights: vec![100.0, 1.0] }),
        ..cfg_uniform.clone()
    };
    let res_weighted = solve_joint_position_ik(&model, &q0, 2, target, &cfg_weighted);

    // Weighted solution should move joint 0 less
    assert!(
        res_weighted.q[0].abs() < res_uniform.q[0].abs(),
        "Weighted j0={:.4} should be smaller than uniform j0={:.4}",
        res_weighted.q[0].abs(), res_uniform.q[0].abs(),
    );
}

#[test]
fn differential_ik_step_reduces_error() {
    let model = ik_two_link_planar();
    let q = vec![0.3, -0.5];
    let data = forward_kinematics(&model, &q);
    let ee = se3_translation(&data.oMi[2]);
    let target = Vector3::new(0.8, 0.6, 0.0);

    let jac = compute_joint_jacobian(&model, &q, 2)
        .rows(3, 3).into_owned();

    let cfg = DiffIkConfig::default();
    let result = differential_ik_step(&jac, &ee, &target, &cfg);

    assert_eq!(result.dq.len(), 2);
    assert!(result.error_before > 0.0);

    // Apply step and check error decreased
    let q_new: Vec<f64> = q.iter().zip(&result.dq)
        .map(|(qi, dqi)| qi + dqi)
        .collect();
    let data2 = forward_kinematics(&model, &q_new);
    let ee2 = se3_translation(&data2.oMi[2]);
    let error_after = (target - ee2).norm();
    assert!(error_after < result.error_before);
}

#[test]
fn differential_ik_step_with_projection() {
    let model = ik_two_link_planar();
    let q = vec![0.3, -0.5];
    let data = forward_kinematics(&model, &q);
    let ee = se3_translation(&data.oMi[2]);
    let target = Vector3::new(0.8, 0.6, 0.0);

    let jac = compute_joint_jacobian(&model, &q, 2)
        .rows(3, 3).into_owned();

    // Project to XY plane (2-DoF)
    let mut proj = DMatrix::<f64>::zeros(2, 3);
    proj[(0, 0)] = 1.0; // X
    proj[(1, 1)] = 1.0; // Y

    let cfg = DiffIkConfig {
        task_projection: Some(proj),
        ..DiffIkConfig::default()
    };
    let result = differential_ik_step(&jac, &ee, &target, &cfg);
    assert_eq!(result.dq.len(), 2);
    assert!(result.error_before > 0.0);
}

#[test]
fn differential_ik_step_with_weights() {
    let model = ik_two_link_planar();
    let q = vec![0.0, 0.0];
    let data = forward_kinematics(&model, &q);
    let ee = se3_translation(&data.oMi[2]);
    let target = Vector3::new(0.8, 0.6, 0.0);

    let jac = compute_joint_jacobian(&model, &q, 2)
        .rows(3, 3).into_owned();

    // Without weights
    let res_unif = differential_ik_step(&jac, &ee, &target, &DiffIkConfig::default());

    // With weights: j0 very expensive
    let res_weighted = differential_ik_step(&jac, &ee, &target, &DiffIkConfig {
        joint_weights: Some(JointWeights { weights: vec![100.0, 1.0] }),
        ..DiffIkConfig::default()
    });

    assert!(
        res_weighted.dq[0].abs() < res_unif.dq[0].abs(),
        "Weighted dq0={:.6} should be smaller than uniform dq0={:.6}",
        res_weighted.dq[0].abs(), res_unif.dq[0].abs(),
    );
}

#[test]
fn jt_differential_ik_step() {
    let model = ik_two_link_planar();
    let q = vec![0.3, -0.5];
    let data = forward_kinematics(&model, &q);
    let ee = se3_translation(&data.oMi[2]);
    let target = Vector3::new(0.8, 0.6, 0.0);

    let jac = compute_joint_jacobian(&model, &q, 2)
        .rows(3, 3).into_owned();

    let cfg = DiffIkConfig {
        solver_method: SolverMethod::JacobianTranspose,
        ..DiffIkConfig::default()
    };
    let result = differential_ik_step(&jac, &ee, &target, &cfg);
    assert_eq!(result.dq.len(), 2);

    // Apply and check error decreased
    let q_new: Vec<f64> = q.iter().zip(&result.dq)
        .map(|(qi, dqi)| qi + dqi)
        .collect();
    let data2 = forward_kinematics(&model, &q_new);
    let ee2 = se3_translation(&data2.oMi[2]);
    assert!((target - ee2).norm() < result.error_before);
}

#[test]
fn differential_ik_with_constraint_reduces_both_errors() {
    // 3-link planar chain: joint 1 → link 1, joint 2 → link 2 (EE)
    let model = ik_two_link_planar();
    let q = vec![0.3, -0.5];
    let data = forward_kinematics(&model, &q);
    let ee = se3_translation(&data.oMi[2]);
    let mid = se3_translation(&data.oMi[1]);
    let target = Vector3::new(0.8, 0.6, 0.0);

    // Primary: move EE (joint 2) toward target
    let jac_ee = compute_joint_jacobian(&model, &q, 2)
        .rows(3, 3).into_owned();

    // Constraint: pin midpoint (joint 1) to its current position
    let jac_mid = compute_joint_jacobian(&model, &q, 1)
        .rows(3, 3).into_owned();
    let mid_error = mid - mid; // already at target → zero error
    let constraint = DiffIkConstraint {
        jacobian: jac_mid.clone(),
        error: DVector::from_column_slice(&[mid_error.x, mid_error.y, mid_error.z]),
        weight: 10.0,
    };

    let cfg = DiffIkConfig::default();
    let result = differential_ik_step_with_constraints(
        &jac_ee, &ee, &target, &[constraint], &cfg,
    );
    assert_eq!(result.dq.len(), 2);

    // EE error should decrease
    let q_new: Vec<f64> = q.iter().zip(&result.dq)
        .map(|(qi, dqi)| qi + dqi).collect();
    let data2 = forward_kinematics(&model, &q_new);
    let ee2 = se3_translation(&data2.oMi[2]);
    assert!((target - ee2).norm() < result.error_before,
        "EE should get closer to target");

    // Mid link should barely move (pinned with high weight)
    let mid2 = se3_translation(&data2.oMi[1]);
    let mid_drift = (mid2 - mid).norm();
    assert!(mid_drift < 0.02,
        "Pinned link drifted {mid_drift:.4}, expected < 0.02");
}

// ── constraint types ──

fn types_frame_at_joint(name: &str, joint_idx: usize) -> Frame {
    Frame {
        name: name.to_string(),
        parent_joint: joint_idx,
        placement: se3_identity(),
    }
}

#[test]
fn types_empty_constraint_model() {
    let cm = ConstraintModel::new();
    assert_eq!(cm.total_dim(), 0);
    assert!(cm.is_empty());
}

#[test]
fn types_constraint_model_dimensions() {
    let f1 = types_frame_at_joint("a", 1);
    let f2 = types_frame_at_joint("b", 2);
    let f3 = types_frame_at_joint("c", 3);

    let mut cm = ConstraintModel::new();
    cm.add(RigidConstraint::pose(f1.clone(), f2.clone()));
    cm.add(RigidConstraint::position(f2, f3));

    assert_eq!(cm.len(), 2);
    assert_eq!(cm.total_dim(), 9); // 6 + 3
}

// ── constraint error ──

fn error_y_tree() -> Model {
    let offset = se3_from_rotation_and_translation(
        &Rotation3::identity(),
        &Vector3::new(1.0, 0.0, 0.0),
    );
    ModelBuilder::new()
        .name("y_tree")
        .add_joint("j1", 0, revolute_z(), se3_identity(), LinkInertia::zero())
        .add_joint("j2", 1, revolute_x(), offset.clone(), LinkInertia::zero())
        .add_joint("j3", 1, revolute_y(), offset, LinkInertia::zero())
        .build()
}

fn error_frame_at_joint(name: &str, joint_idx: usize) -> Frame {
    Frame {
        name: name.to_string(),
        parent_joint: joint_idx,
        placement: se3_identity(),
    }
}

#[test]
fn error_error_zero_when_frames_coincide() {
    let model = error_y_tree();
    let q = vec![0.0; model.nq];

    let f2 = error_frame_at_joint("left", 2);
    let f3 = error_frame_at_joint("right", 3);

    let cm = ConstraintModel::from_constraints(vec![
        RigidConstraint::position(f2, f3),
    ]);
    let err = compute_constraint_error(&model, &q, &cm);
    near(err.norm(), 0.0, 1e-12);
}

#[test]
fn error_error_nonzero_when_frames_differ() {
    let model = error_y_tree();
    let q = vec![0.0, 0.5, -0.5];

    let f2 = error_frame_at_joint("left", 2);
    let f3 = error_frame_at_joint("right", 3);

    let cm = ConstraintModel::from_constraints(vec![
        RigidConstraint::pose(f2, f3),
    ]);
    let err = compute_constraint_error(&model, &q, &cm);
    assert!(err.norm() > 0.01, "error should be nonzero when frames differ");
}

#[test]
fn error_error_with_desired_offset() {
    let model = error_y_tree();
    let q = vec![0.0; model.nq];

    let f2 = error_frame_at_joint("left", 2);
    let f3 = error_frame_at_joint("right", 3);

    let desired = se3_from_rotation_and_translation(
        &Rotation3::identity(),
        &Vector3::new(0.5, 0.0, 0.0),
    );

    let cm = ConstraintModel::from_constraints(vec![
        RigidConstraint::position(f2, f3).with_desired_placement(desired),
    ]);

    let err = compute_constraint_error(&model, &q, &cm);
    near(err[0], -0.5, 1e-12);
    near(err[1], 0.0, 1e-12);
    near(err[2], 0.0, 1e-12);
}

#[test]
fn error_local_frame_error_rotates() {
    let model = error_y_tree();
    let q_nonzero = vec![std::f64::consts::FRAC_PI_4, 0.2, -0.3];

    let f2 = error_frame_at_joint("left", 2);
    let f3 = error_frame_at_joint("right", 3);

    // World-frame constraint
    let cm_world = ConstraintModel::from_constraints(vec![
        RigidConstraint::pose(f2.clone(), f3.clone()),
    ]);
    let e_world = compute_constraint_error(&model, &q_nonzero, &cm_world);

    // Local-frame constraint
    let cm_local = ConstraintModel::from_constraints(vec![
        RigidConstraint::pose(f2.clone(), f3.clone())
            .with_reference_frame(ReferenceFrame::Local),
    ]);
    let e_local = compute_constraint_error(&model, &q_nonzero, &cm_local);

    // Both should have the same norm (rotation preserves length)
    near(e_world.norm(), e_local.norm(), 1e-10);

    // In general the components should differ (non-trivial rotation)
    let diff = (&e_world - &e_local).norm();
    assert!(diff > 1e-6, "world and local errors should differ in components");
}

// ── constraint jacobian ──

fn cjacobian_y_tree() -> Model {
    let offset = se3_from_rotation_and_translation(
        &Rotation3::identity(),
        &Vector3::new(1.0, 0.0, 0.0),
    );
    ModelBuilder::new()
        .name("y_tree")
        .add_joint("j1", 0, revolute_z(), se3_identity(), LinkInertia::zero())
        .add_joint("j2", 1, revolute_x(), offset.clone(), LinkInertia::zero())
        .add_joint("j3", 1, revolute_y(), offset, LinkInertia::zero())
        .build()
}

fn cjacobian_dual_arm() -> Model {
    let shoulder_y = se3_from_rotation_and_translation(
        &Rotation3::identity(),
        &Vector3::new(0.0, 0.3, 0.0),
    );
    let shoulder_ny = se3_from_rotation_and_translation(
        &Rotation3::identity(),
        &Vector3::new(0.0, -0.3, 0.0),
    );
    let forearm = se3_from_rotation_and_translation(
        &Rotation3::identity(),
        &Vector3::new(0.0, 0.0, -0.5),
    );
    ModelBuilder::new()
        .name("dual_arm")
        .add_joint("base", 0, revolute_z(), se3_identity(), LinkInertia::zero())
        .add_joint("left_shoulder", 1, revolute_x(), shoulder_y, LinkInertia::zero())
        .add_joint("left_elbow", 2, revolute_x(), forearm.clone(), LinkInertia::zero())
        .add_joint("right_shoulder", 1, revolute_x(), shoulder_ny, LinkInertia::zero())
        .add_joint("right_elbow", 4, revolute_x(), forearm, LinkInertia::zero())
        .build()
}

fn cjacobian_frame_at_joint(name: &str, joint_idx: usize) -> Frame {
    Frame {
        name: name.to_string(),
        parent_joint: joint_idx,
        placement: se3_identity(),
    }
}

fn cjacobian_frame_with_offset(name: &str, joint_idx: usize, offset: Vector3<f64>) -> Frame {
    Frame {
        name: name.to_string(),
        parent_joint: joint_idx,
        placement: se3_from_rotation_and_translation(&Rotation3::identity(), &offset),
    }
}

#[test]
fn jacobian_jacobian_shape() {
    let model = cjacobian_y_tree();
    let q = vec![0.0; model.nq];

    let f2 = cjacobian_frame_at_joint("left", 2);
    let f3 = cjacobian_frame_at_joint("right", 3);

    let cm = ConstraintModel::from_constraints(vec![
        RigidConstraint::position(f2, f3),
    ]);

    let jc = compute_constraint_jacobian(&model, &q, &cm);
    assert_eq!(jc.nrows(), 3);
    assert_eq!(jc.ncols(), model.nv);
}

#[test]
fn jacobian_jacobian_6d_shape() {
    let model = cjacobian_y_tree();
    let q = vec![0.0; model.nq];

    let f2 = cjacobian_frame_at_joint("left", 2);
    let f3 = cjacobian_frame_at_joint("right", 3);

    let cm = ConstraintModel::from_constraints(vec![
        RigidConstraint::pose(f2, f3),
    ]);

    let jc = compute_constraint_jacobian(&model, &q, &cm);
    assert_eq!(jc.nrows(), 6);
    assert_eq!(jc.ncols(), model.nv);
}

#[test]
fn jacobian_jacobian_multiple_constraints_stacked() {
    let model = cjacobian_dual_arm();
    let q = vec![0.0; model.nq];

    let left_tip = cjacobian_frame_at_joint("left_tip", 3);
    let right_tip = cjacobian_frame_at_joint("right_tip", 5);
    let world_anchor = Frame {
        name: "world".into(),
        parent_joint: 0,
        placement: se3_from_rotation_and_translation(
            &Rotation3::identity(),
            &Vector3::new(0.0, 0.0, -1.0),
        ),
    };

    let cm = ConstraintModel::from_constraints(vec![
        RigidConstraint::position(left_tip.clone(), right_tip),
        RigidConstraint::pose(left_tip, world_anchor),
    ]);

    let jc = compute_constraint_jacobian(&model, &q, &cm);
    assert_eq!(jc.nrows(), 9);
    assert_eq!(jc.ncols(), model.nv);
}

#[test]
fn jacobian_jacobian_finite_diff_validation_3d() {
    let model = cjacobian_y_tree();
    let q = vec![0.3, -0.2, 0.5];

    let f2 = cjacobian_frame_at_joint("left", 2);
    let f3 = cjacobian_frame_at_joint("right", 3);

    let cm = ConstraintModel::from_constraints(vec![
        RigidConstraint::position(f2, f3),
    ]);

    let jc = compute_constraint_jacobian(&model, &q, &cm);
    let e0 = compute_constraint_error(&model, &q, &cm);

    let eps = 1e-7;
    for col in 0..model.nv {
        let mut q_plus = q.clone();
        q_plus[col] += eps;
        let e_plus = compute_constraint_error(&model, &q_plus, &cm);
        let de = (&e_plus - &e0) / eps;

        for row in 0..3 {
            near(jc[(row, col)], de[row], 1e-5);
        }
    }
}

#[test]
fn jacobian_jacobian_finite_diff_validation_6d() {
    let model = cjacobian_y_tree();
    let q = vec![0.001, 0.001, -0.001];

    let f2 = cjacobian_frame_at_joint("left", 2);
    let f3 = cjacobian_frame_at_joint("right", 3);

    let cm = ConstraintModel::from_constraints(vec![
        RigidConstraint::pose(f2, f3),
    ]);

    let jc = compute_constraint_jacobian(&model, &q, &cm);
    let e0 = compute_constraint_error(&model, &q, &cm);

    let eps = 1e-7;
    for col in 0..model.nv {
        let mut q_plus = q.clone();
        q_plus[col] += eps;
        let e_plus = compute_constraint_error(&model, &q_plus, &cm);
        let de = (&e_plus - &e0) / eps;

        for row in 0..6 {
            near(jc[(row, col)], de[row], 5e-3);
        }
    }
}

#[test]
fn jacobian_jacobian_world_anchor_single_branch() {
    let model = cjacobian_y_tree();
    let q = vec![0.2, 0.0, 0.0];

    let f2 = cjacobian_frame_at_joint("left", 2);
    let world_origin = Frame {
        name: "world_origin".into(),
        parent_joint: 0,
        placement: se3_identity(),
    };

    let cm = ConstraintModel::from_constraints(vec![
        RigidConstraint::position(world_origin, f2),
    ]);

    let jc = compute_constraint_jacobian(&model, &q, &cm);
    let data = forward_kinematics(&model, &q);
    let j_f2 = compute_frame_jacobian_from_data(&model, &q, &data, &cjacobian_frame_at_joint("left", 2));
    let j_f2_lin = j_f2.rows(3, 3);

    near(jc, j_f2_lin.into_owned(), 1e-12);
}

#[test]
fn jacobian_cross_branch_jacobian_nonzero_both_branches() {
    let model = cjacobian_y_tree();
    let q = vec![0.3, 0.2, -0.4];

    let f2 = cjacobian_frame_with_offset("left_tip", 2, Vector3::new(0.0, 0.0, 0.5));
    let f3 = cjacobian_frame_with_offset("right_tip", 3, Vector3::new(0.0, 0.0, 0.5));

    let cm = ConstraintModel::from_constraints(vec![
        RigidConstraint::position(f2, f3),
    ]);

    let jc = compute_constraint_jacobian(&model, &q, &cm);

    let col1_norm = jc.column(1).norm();
    let col2_norm = jc.column(2).norm();
    assert!(col1_norm > 1e-6, "j2 column should be nonzero: {col1_norm}");
    assert!(col2_norm > 1e-6, "j3 column should be nonzero: {col2_norm}");
}

#[test]
fn jacobian_cross_branch_jacobian_common_ancestor_column() {
    let model = cjacobian_y_tree();
    let q = vec![0.0; model.nq];

    let f2 = cjacobian_frame_at_joint("left", 2);
    let f3 = cjacobian_frame_at_joint("right", 3);

    let cm = ConstraintModel::from_constraints(vec![
        RigidConstraint::position(f2, f3),
    ]);

    let jc = compute_constraint_jacobian(&model, &q, &cm);
    let col0 = jc.column(0);
    near(col0.norm(), 0.0, 1e-12);
}

#[test]
fn jacobian_local_jacobian_finite_diff_validation() {
    let model = cjacobian_y_tree();
    let q = vec![0.2, 0.3, -0.1];

    let f2 = cjacobian_frame_at_joint("left", 2);
    let f3 = cjacobian_frame_at_joint("right", 3);

    let cm = ConstraintModel::from_constraints(vec![
        RigidConstraint::position(f2, f3)
            .with_reference_frame(ReferenceFrame::Local),
    ]);

    let jc = compute_constraint_jacobian(&model, &q, &cm);
    let e0 = compute_constraint_error(&model, &q, &cm);

    let eps = 1e-7;
    for col in 0..model.nv {
        let mut q_plus = q.clone();
        q_plus[col] += eps;
        let e_plus = compute_constraint_error(&model, &q_plus, &cm);
        let de = (&e_plus - &e0) / eps;

        for row in 0..3 {
            near(jc[(row, col)], de[row], 1e-4);
        }
    }
}

#[test]
fn jacobian_constraint_jacobian_in_kkt() {

    let offset = se3_from_rotation_and_translation(
        &Rotation3::identity(),
        &Vector3::new(1.0, 0.0, 0.0),
    );
    let inertia = LinkInertia {
        mass: 1.0,
        center_of_mass: Vector3::new(0.5, 0.0, 0.0),
        rotational_inertia: na::Matrix3::from_diagonal(&Vector3::new(0.1, 0.1, 0.01)),
    };
    let model = ModelBuilder::new()
        .add_joint("j1", 0, revolute_z(), se3_identity(), inertia.clone())
        .add_joint("j2", 1, revolute_x(), offset.clone(), inertia.clone())
        .add_joint("j3", 1, revolute_y(), offset, inertia.clone())
        .build();

    let q = vec![0.1, 0.2, -0.2];
    let v = vec![0.0; model.nv];
    let tau = vec![0.0; model.nv];

    let f2 = cjacobian_frame_with_offset("left_tip", 2, Vector3::new(0.5, 0.0, 0.0));
    let f3 = cjacobian_frame_with_offset("right_tip", 3, Vector3::new(0.5, 0.0, 0.0));

    let cm = ConstraintModel::from_constraints(vec![
        RigidConstraint::position(f2, f3),
    ]);

    let jc = compute_constraint_jacobian(&model, &q, &cm);
    let gamma = na::DVector::zeros(jc.nrows());

    let result = constrained_forward_dynamics(&model, &q, &v, &tau, &jc, &gamma);
    assert_eq!(result.qdd.len(), model.nv);
    assert_eq!(result.lambda.len(), 3);
}

// ── constraint ik ──

fn cik_y_tree() -> Model {
    let offset = se3_from_rotation_and_translation(
        &Rotation3::identity(),
        &Vector3::new(1.0, 0.0, 0.0),
    );
    ModelBuilder::new()
        .name("y_tree")
        .add_joint("j1", 0, revolute_z(), se3_identity(), LinkInertia::zero())
        .add_joint("j2", 1, revolute_x(), offset.clone(), LinkInertia::zero())
        .add_joint("j3", 1, revolute_y(), offset, LinkInertia::zero())
        .build()
}

fn cik_dual_arm() -> Model {
    let shoulder_y = se3_from_rotation_and_translation(
        &Rotation3::identity(),
        &Vector3::new(0.0, 0.3, 0.0),
    );
    let shoulder_ny = se3_from_rotation_and_translation(
        &Rotation3::identity(),
        &Vector3::new(0.0, -0.3, 0.0),
    );
    let forearm = se3_from_rotation_and_translation(
        &Rotation3::identity(),
        &Vector3::new(0.0, 0.0, -0.5),
    );
    ModelBuilder::new()
        .name("dual_arm")
        .add_joint("base", 0, revolute_z(), se3_identity(), LinkInertia::zero())
        .add_joint("left_shoulder", 1, revolute_x(), shoulder_y, LinkInertia::zero())
        .add_joint("left_elbow", 2, revolute_x(), forearm.clone(), LinkInertia::zero())
        .add_joint("right_shoulder", 1, revolute_x(), shoulder_ny, LinkInertia::zero())
        .add_joint("right_elbow", 4, revolute_x(), forearm, LinkInertia::zero())
        .build()
}

fn cik_frame_at_joint(name: &str, joint_idx: usize) -> Frame {
    Frame {
        name: name.to_string(),
        parent_joint: joint_idx,
        placement: se3_identity(),
    }
}

fn cik_frame_with_offset(name: &str, joint_idx: usize, offset: Vector3<f64>) -> Frame {
    Frame {
        name: name.to_string(),
        parent_joint: joint_idx,
        placement: se3_from_rotation_and_translation(&Rotation3::identity(), &offset),
    }
}

#[test]
fn ik_constrained_ik_converges_cross_branch() {
    let model = cik_y_tree();
    let q0 = vec![0.0, 0.5, -0.5];

    let f2 = cik_frame_at_joint("left", 2);
    let f3 = cik_frame_at_joint("right", 3);

    let cm = ConstraintModel::from_constraints(vec![
        RigidConstraint::position(f2, f3),
    ]);

    let config = ConstrainedIkConfig {
        max_iters: 200,
        tol_constraint: 1e-8,
        ..Default::default()
    };

    let result = solve_constrained_ik(&model, &q0, &cm, &config);
    assert!(result.converged, "should converge; err={}", result.constraint_error_norm);
    assert!(result.constraint_error_norm < 1e-6);

    let data = forward_kinematics(&model, &result.q);
    let p2 = se3_translation(&data.oMi[2]);
    let p3 = se3_translation(&data.oMi[3]);
    near(p2, p3, 1e-5);
}

#[test]
fn ik_constrained_ik_6d_converges() {
    let model = cik_y_tree();
    let q0 = vec![0.0, 0.3, -0.3];

    let f2 = cik_frame_at_joint("left", 2);
    let f3 = cik_frame_at_joint("right", 3);

    let cm = ConstraintModel::from_constraints(vec![
        RigidConstraint::pose(f2, f3),
    ]);

    let config = ConstrainedIkConfig {
        max_iters: 300,
        tol_constraint: 1e-6,
        step_size: 0.3,
        ..Default::default()
    };

    let result = solve_constrained_ik(&model, &q0, &cm, &config);
    assert!(result.converged, "err={}", result.constraint_error_norm);
}

#[test]
fn ik_constrained_ik_with_desired_offset() {
    let model = cik_y_tree();
    let q0 = vec![0.0, 0.5, -0.5];

    let f2 = cik_frame_with_offset("left_tip", 2, Vector3::new(0.0, 0.0, 0.5));
    let f3 = cik_frame_with_offset("right_tip", 3, Vector3::new(0.0, 0.0, 0.5));

    let desired = se3_from_rotation_and_translation(
        &Rotation3::identity(),
        &Vector3::new(0.0, 0.1, 0.0),
    );

    let cm = ConstraintModel::from_constraints(vec![
        RigidConstraint::position(f2.clone(), f3.clone()).with_desired_placement(desired),
    ]);

    let config = ConstrainedIkConfig {
        max_iters: 1000,
        tol_constraint: 1e-3,
        step_size: 0.3,
        damping: 1e-3,
        ..Default::default()
    };

    let result = solve_constrained_ik(&model, &q0, &cm, &config);
    assert!(
        result.constraint_error_norm < 0.05,
        "expected significant error reduction; err={}",
        result.constraint_error_norm
    );
}

#[test]
fn ik_task_with_constraints_dual_arm() {
    let model = cik_dual_arm();
    let q0 = vec![0.0; model.nq];

    let left_tip = cik_frame_with_offset("left_tip", 3, Vector3::new(0.0, 0.0, -0.3));
    let right_tip = cik_frame_with_offset("right_tip", 5, Vector3::new(0.0, 0.0, -0.3));

    let cm = ConstraintModel::from_constraints(vec![
        RigidConstraint::position(left_tip, right_tip),
    ]);

    let target = Vector3::new(0.0, 0.0, -0.8);

    let config = ConstrainedIkConfig {
        max_iters: 500,
        tol_task: 1e-3,
        tol_constraint: 1e-3,
        step_size: 0.3,
        damping: 1e-2,
        constraint_weight: 5.0,
    };

    let result = solve_task_with_constraints(&model, &q0, 3, target, &cm, &config);

    let data = forward_kinematics(&model, &result.q);
    let p_left = se3_translation(&compute_frame_placement_from_data(
        &data,
        &cik_frame_with_offset("lt", 3, Vector3::new(0.0, 0.0, -0.3)),
    ));
    let p_right = se3_translation(&compute_frame_placement_from_data(
        &data,
        &cik_frame_with_offset("rt", 5, Vector3::new(0.0, 0.0, -0.3)),
    ));
    let constraint_err = (p_left - p_right).norm();
    assert!(
        constraint_err < 0.1,
        "cross-branch constraint error too large: {constraint_err}"
    );
}

#[test]
fn ik_frame_task_with_constraints_converges() {
    let model = cik_y_tree();
    let q0 = vec![0.0, 0.5, -0.5];

    let task_frame = cik_frame_with_offset("tool", 2, Vector3::new(0.5, 0.0, 0.0));
    let target_pose = se3_from_rotation_and_translation(
        &Rotation3::identity(),
        &Vector3::new(1.2, 0.3, 0.0),
    );

    let cm = ConstraintModel::new();

    let config = ConstrainedIkConfig {
        max_iters: 300,
        tol_task: 1e-3,
        tol_constraint: 1e-6,
        step_size: 0.3,
        damping: 1e-2,
        constraint_weight: 5.0,
    };

    let result = solve_frame_task_with_constraints(
        &model, &q0, &task_frame, target_pose, &cm, &config,
    );

    assert!(result.task_error_norm < 1.0);
}

#[test]
fn ik_constrained_ik_dual_arm_position() {
    let model = cik_dual_arm();
    let q0 = vec![0.0, 0.3, -0.5, -0.3, 0.5];

    let left_tip = cik_frame_with_offset("l_tip", 3, Vector3::new(0.0, 0.0, -0.3));
    let right_tip = cik_frame_with_offset("r_tip", 5, Vector3::new(0.0, 0.0, -0.3));

    let cm = ConstraintModel::from_constraints(vec![
        RigidConstraint::position(left_tip.clone(), right_tip.clone()),
    ]);

    let config = ConstrainedIkConfig {
        max_iters: 500,
        tol_constraint: 1e-4,
        step_size: 0.5,
        damping: 1e-3,
        ..Default::default()
    };

    let result = solve_constrained_ik(&model, &q0, &cm, &config);
    assert!(result.converged, "err={}", result.constraint_error_norm);

    let data = forward_kinematics(&model, &result.q);
    let p_l = se3_translation(&compute_frame_placement_from_data(&data, &left_tip));
    let p_r = se3_translation(&compute_frame_placement_from_data(&data, &right_tip));
    near(p_l, p_r, 1e-3);
}

// ── constraint qp_ik ──

fn qp_y_tree() -> Model {
    let offset = se3_from_rotation_and_translation(
        &Rotation3::identity(),
        &Vector3::new(1.0, 0.0, 0.0),
    );
    ModelBuilder::new()
        .name("y_tree")
        .add_joint("j1", 0, revolute_z(), se3_identity(), LinkInertia::zero())
        .add_joint("j2", 1, revolute_x(), offset.clone(), LinkInertia::zero())
        .add_joint("j3", 1, revolute_y(), offset, LinkInertia::zero())
        .build()
}

fn qp_dual_arm() -> Model {
    let shoulder_y = se3_from_rotation_and_translation(
        &Rotation3::identity(),
        &Vector3::new(0.0, 0.3, 0.0),
    );
    let shoulder_ny = se3_from_rotation_and_translation(
        &Rotation3::identity(),
        &Vector3::new(0.0, -0.3, 0.0),
    );
    let forearm = se3_from_rotation_and_translation(
        &Rotation3::identity(),
        &Vector3::new(0.0, 0.0, -0.5),
    );
    ModelBuilder::new()
        .name("dual_arm")
        .add_joint("base", 0, revolute_z(), se3_identity(), LinkInertia::zero())
        .add_joint("left_shoulder", 1, revolute_x(), shoulder_y, LinkInertia::zero())
        .add_joint("left_elbow", 2, revolute_x(), forearm.clone(), LinkInertia::zero())
        .add_joint("right_shoulder", 1, revolute_x(), shoulder_ny, LinkInertia::zero())
        .add_joint("right_elbow", 4, revolute_x(), forearm, LinkInertia::zero())
        .build()
}

fn qp_frame_at_joint(name: &str, joint_idx: usize) -> Frame {
    Frame {
        name: name.to_string(),
        parent_joint: joint_idx,
        placement: se3_identity(),
    }
}

fn qp_frame_with_offset(name: &str, joint_idx: usize, offset: Vector3<f64>) -> Frame {
    Frame {
        name: name.to_string(),
        parent_joint: joint_idx,
        placement: se3_from_rotation_and_translation(&Rotation3::identity(), &offset),
    }
}

#[test]
fn qp_ik_joint_limit_inequalities_shape() {
    let model = qp_y_tree();
    let q = vec![0.0; model.nq];
    let mut limits = JointLimits::unbounded(&model);
    for i in 0..model.nq {
        limits.q_min[i] = -1.5;
        limits.q_max[i] = 1.5;
    }
    let (a, b) = build_joint_limit_inequalities(&model, &q, &limits);
    assert_eq!(a.nrows(), 6);
    assert_eq!(a.ncols(), model.nv);
    assert_eq!(b.nrows(), 6);
}

#[test]
fn qp_ik_joint_limit_inequalities_values() {
    let model = qp_y_tree();
    let q = vec![0.5, -0.3, 0.8];
    let mut limits = JointLimits::unbounded(&model);
    limits.q_min = vec![-1.0, -1.0, -1.0];
    limits.q_max = vec![1.0, 1.0, 1.0];

    let (a, b) = build_joint_limit_inequalities(&model, &q, &limits);

    let dq_zero = na::DVector::zeros(model.nv);
    let vals = &a * &dq_zero;
    for i in 0..a.nrows() {
        assert!(vals[i] <= b[i] + 1e-12, "dq=0 should be feasible, row {i}");
    }
}

#[test]
fn qp_ik_max_step_inequalities_shape() {
    let (a, b) = build_max_step_inequalities(5, 0.1);
    assert_eq!(a.nrows(), 10);
    assert_eq!(a.ncols(), 5);
    for i in 0..10 {
        near(b[i], 0.1, 1e-15);
    }
}

#[test]
fn qp_ik_stack_inequalities_works() {
    let a1 = na::DMatrix::identity(2, 3);
    let b1 = na::DVector::from_vec(vec![1.0, 2.0]);
    let a2 = na::DMatrix::from_element(1, 3, 0.5);
    let b2 = na::DVector::from_element(1, 3.0);

    let (a, b) = stack_inequalities(&[(&a1, &b1), (&a2, &b2)]);
    assert_eq!(a.nrows(), 3);
    assert_eq!(a.ncols(), 3);
    assert_eq!(b.nrows(), 3);
    near(b[2], 3.0, 1e-15);
}

#[test]
fn qp_ik_qp_ik_no_limits_matches_dls() {
    let model = qp_y_tree();
    let q0 = vec![0.0, 0.5, -0.5];

    let f2 = qp_frame_at_joint("left", 2);
    let f3 = qp_frame_at_joint("right", 3);
    let cm = ConstraintModel::from_constraints(vec![
        RigidConstraint::position(f2, f3),
    ]);

    let config = QpIkConfig {
        max_iters: 200,
        tol_constraint: 1e-6,
        step_size: 0.5,
        damping: 1e-3,
        constraint_weight: 10.0,
        ..Default::default()
    };

    let result = solve_constrained_ik_qp(&model, &q0, &cm, &config);
    assert!(result.converged, "should converge; err={}", result.constraint_error_norm);
    assert!(result.constraint_error_norm < 1e-4);
}

#[test]
fn qp_ik_qp_ik_with_joint_limits_respected() {
    let model = qp_y_tree();
    let q0 = vec![0.0, 0.5, -0.5];

    let f2 = qp_frame_at_joint("left", 2);
    let f3 = qp_frame_at_joint("right", 3);
    let cm = ConstraintModel::from_constraints(vec![
        RigidConstraint::position(f2, f3),
    ]);

    let mut limits = JointLimits::unbounded(&model);
    limits.q_min = vec![-0.3, -0.3, -0.3];
    limits.q_max = vec![0.3, 0.3, 0.3];

    let config = QpIkConfig {
        max_iters: 300,
        tol_constraint: 1e-6,
        step_size: 0.5,
        damping: 1e-3,
        constraint_weight: 10.0,
        joint_limits: Some(limits.clone()),
        ..Default::default()
    };

    let result = solve_constrained_ik_qp(&model, &q0, &cm, &config);

    for (i, &qi) in result.q.iter().enumerate() {
        assert!(
            qi >= limits.q_min[i] - 1e-6,
            "joint {i} below lower limit: {qi} < {}",
            limits.q_min[i]
        );
        assert!(
            qi <= limits.q_max[i] + 1e-6,
            "joint {i} above upper limit: {qi} > {}",
            limits.q_max[i]
        );
    }
}

#[test]
fn qp_ik_qp_ik_with_max_step() {
    let model = qp_y_tree();
    let q0 = vec![0.0, 0.5, -0.5];

    let f2 = qp_frame_at_joint("left", 2);
    let f3 = qp_frame_at_joint("right", 3);
    let cm = ConstraintModel::from_constraints(vec![
        RigidConstraint::position(f2, f3),
    ]);

    let config = QpIkConfig {
        max_iters: 500,
        tol_constraint: 1e-6,
        step_size: 1.0,
        damping: 1e-3,
        constraint_weight: 10.0,
        max_step: Some(0.05),
        ..Default::default()
    };

    let result = solve_constrained_ik_qp(&model, &q0, &cm, &config);
    assert!(
        result.constraint_error_norm < 0.01,
        "should reduce error; err={}",
        result.constraint_error_norm
    );
}

#[test]
fn qp_ik_qp_task_ik_with_joint_limits() {
    let model = qp_y_tree();
    let q0 = vec![0.0; model.nq];
    let target = Vector3::new(0.8, 0.5, 0.0);

    let mut limits = JointLimits::unbounded(&model);
    limits.q_min = vec![-1.0, -1.0, -1.0];
    limits.q_max = vec![1.0, 1.0, 1.0];

    let cm = ConstraintModel::new();

    let config = QpIkConfig {
        max_iters: 300,
        tol_task: 1e-3,
        tol_constraint: 1e-6,
        step_size: 0.5,
        damping: 1e-2,
        constraint_weight: 10.0,
        joint_limits: Some(limits.clone()),
        ..Default::default()
    };

    let result = solve_task_with_constraints_qp(
        &model, &q0, 2, target, &cm, &config,
    );

    for (i, &qi) in result.q.iter().enumerate() {
        assert!(qi >= limits.q_min[i] - 1e-6, "lower limit violated j{i}");
        assert!(qi <= limits.q_max[i] + 1e-6, "upper limit violated j{i}");
    }

    assert!(result.task_error_norm < 0.5, "task err={}", result.task_error_norm);
}

#[test]
fn qp_ik_qp_task_ik_tight_limits() {
    let model = qp_y_tree();
    let q0 = vec![0.0; model.nq];
    let target = Vector3::new(2.0, 0.0, 0.0);

    let mut limits = JointLimits::unbounded(&model);
    limits.q_min = vec![-0.1, -0.1, -0.1];
    limits.q_max = vec![0.1, 0.1, 0.1];

    let cm = ConstraintModel::new();
    let config = QpIkConfig {
        max_iters: 100,
        tol_task: 1e-3,
        step_size: 0.5,
        damping: 1e-2,
        joint_limits: Some(limits.clone()),
        ..Default::default()
    };

    let result = solve_task_with_constraints_qp(
        &model, &q0, 2, target, &cm, &config,
    );

    for (i, &qi) in result.q.iter().enumerate() {
        assert!(qi >= limits.q_min[i] - 1e-6, "j{i} < lower");
        assert!(qi <= limits.q_max[i] + 1e-6, "j{i} > upper");
    }
}

#[test]
fn qp_ik_qp_task_with_equality_and_inequality() {
    let model = qp_dual_arm();
    let q0 = vec![0.0; model.nq];

    let left_tip = qp_frame_with_offset("l_tip", 3, Vector3::new(0.0, 0.0, -0.3));
    let right_tip = qp_frame_with_offset("r_tip", 5, Vector3::new(0.0, 0.0, -0.3));

    let cm = ConstraintModel::from_constraints(vec![
        RigidConstraint::position(left_tip, right_tip),
    ]);

    let target = Vector3::new(0.0, 0.0, -0.7);

    let mut limits = JointLimits::unbounded(&model);
    for i in 0..model.nq {
        limits.q_min[i] = -1.5;
        limits.q_max[i] = 1.5;
    }

    let config = QpIkConfig {
        max_iters: 500,
        tol_task: 1e-2,
        tol_constraint: 1e-2,
        step_size: 0.3,
        damping: 1e-2,
        constraint_weight: 5.0,
        joint_limits: Some(limits.clone()),
        ..Default::default()
    };

    let result = solve_task_with_constraints_qp(
        &model, &q0, 3, target, &cm, &config,
    );

    for (i, &qi) in result.q.iter().enumerate() {
        assert!(qi >= limits.q_min[i] - 1e-6, "j{i} limit");
        assert!(qi <= limits.q_max[i] + 1e-6, "j{i} limit");
    }
}

#[test]
fn qp_ik_qp_frame_task_with_limits() {
    let model = qp_y_tree();
    let q0 = vec![0.0, 0.3, -0.3];

    let task_frame = qp_frame_with_offset("tool", 2, Vector3::new(0.5, 0.0, 0.0));
    let target_pose = se3_from_rotation_and_translation(
        &Rotation3::identity(),
        &Vector3::new(1.2, 0.3, 0.0),
    );

    let mut limits = JointLimits::unbounded(&model);
    limits.q_min = vec![-1.5, -1.5, -1.5];
    limits.q_max = vec![1.5, 1.5, 1.5];

    let cm = ConstraintModel::new();
    let config = QpIkConfig {
        max_iters: 300,
        tol_task: 1e-3,
        step_size: 0.3,
        damping: 1e-2,
        joint_limits: Some(limits.clone()),
        ..Default::default()
    };

    let result = solve_frame_task_with_constraints_qp(
        &model, &q0, &task_frame, target_pose, &cm, &config,
    );

    for (i, &qi) in result.q.iter().enumerate() {
        assert!(qi >= limits.q_min[i] - 1e-6);
        assert!(qi <= limits.q_max[i] + 1e-6);
    }

    assert!(result.task_error_norm < 1.0);
}

#[test]
fn qp_ik_qp_ik_limits_inactive_same_as_no_limits() {
    let model = qp_y_tree();
    let q0 = vec![0.0, 0.5, -0.5];

    let f2 = qp_frame_at_joint("left", 2);
    let f3 = qp_frame_at_joint("right", 3);
    let cm = ConstraintModel::from_constraints(vec![
        RigidConstraint::position(f2, f3),
    ]);

    let mut limits = JointLimits::unbounded(&model);
    limits.q_min = vec![-10.0; model.nq];
    limits.q_max = vec![10.0; model.nq];

    let config_no_lim = QpIkConfig {
        max_iters: 200,
        tol_constraint: 1e-6,
        step_size: 0.5,
        damping: 1e-3,
        constraint_weight: 10.0,
        ..Default::default()
    };

    let config_wide_lim = QpIkConfig {
        joint_limits: Some(limits),
        ..config_no_lim.clone()
    };

    let r1 = solve_constrained_ik_qp(&model, &q0, &cm, &config_no_lim);
    let r2 = solve_constrained_ik_qp(&model, &q0, &cm, &config_wide_lim);

    assert!(r1.converged);
    assert!(r2.converged);
    let diff: f64 = r1.q.iter().zip(&r2.q).map(|(a, b)| (a - b).abs()).sum();
    assert!(diff < 0.1, "wide-limit solution should match no-limit: diff={diff}");
}

// ── constraint ──

/// Y-tree:  universe → j1(Z) → j2(X)  (left arm, link lengths 1.0)
///                           → j3(Y)  (right arm)
fn constraint_y_tree() -> Model {
    let offset = se3_from_rotation_and_translation(
        &Rotation3::identity(),
        &Vector3::new(1.0, 0.0, 0.0),
    );
    ModelBuilder::new()
        .name("y_tree")
        .add_joint("j1", 0, revolute_z(), se3_identity(), LinkInertia::zero())
        .add_joint("j2", 1, revolute_x(), offset.clone(), LinkInertia::zero())
        .add_joint("j3", 1, revolute_y(), offset, LinkInertia::zero())
        .build()
}

/// Dual-arm humanoid-like: universe → base → left_shoulder → left_elbow
///                                        → right_shoulder → right_elbow
fn constraint_dual_arm() -> Model {
    let shoulder_y = se3_from_rotation_and_translation(
        &Rotation3::identity(),
        &Vector3::new(0.0, 0.3, 0.0),
    );
    let shoulder_ny = se3_from_rotation_and_translation(
        &Rotation3::identity(),
        &Vector3::new(0.0, -0.3, 0.0),
    );
    let forearm = se3_from_rotation_and_translation(
        &Rotation3::identity(),
        &Vector3::new(0.0, 0.0, -0.5),
    );
    ModelBuilder::new()
        .name("dual_arm")
        .add_joint("base", 0, revolute_z(), se3_identity(), LinkInertia::zero())
        .add_joint("left_shoulder", 1, revolute_x(), shoulder_y, LinkInertia::zero())
        .add_joint("left_elbow", 2, revolute_x(), forearm.clone(), LinkInertia::zero())
        .add_joint("right_shoulder", 1, revolute_x(), shoulder_ny, LinkInertia::zero())
        .add_joint("right_elbow", 4, revolute_x(), forearm, LinkInertia::zero())
        .build()
}

fn constraint_frame_at_joint(name: &str, joint_idx: usize) -> Frame {
    Frame {
        name: name.to_string(),
        parent_joint: joint_idx,
        placement: se3_identity(),
    }
}

fn constraint_frame_with_offset(name: &str, joint_idx: usize, offset: Vector3<f64>) -> Frame {
    Frame {
        name: name.to_string(),
        parent_joint: joint_idx,
        placement: se3_from_rotation_and_translation(&Rotation3::identity(), &offset),
    }
}

// ── ConstraintModel basics ──────────────────────────────────────────

#[test]
fn constraint_empty_constraint_model() {
    let cm = ConstraintModel::new();
    assert_eq!(cm.total_dim(), 0);
    assert!(cm.is_empty());
}

#[test]
fn constraint_constraint_model_dimensions() {
    let f1 = constraint_frame_at_joint("a", 1);
    let f2 = constraint_frame_at_joint("b", 2);
    let f3 = constraint_frame_at_joint("c", 3);

    let mut cm = ConstraintModel::new();
    cm.add(RigidConstraint::pose(f1.clone(), f2.clone()));
    cm.add(RigidConstraint::position(f2, f3));

    assert_eq!(cm.len(), 2);
    assert_eq!(cm.total_dim(), 9); // 6 + 3
}

// ── Constraint error ────────────────────────────────────────────────

#[test]
fn constraint_error_zero_when_frames_coincide() {
    let model = constraint_y_tree();
    let q = vec![0.0; model.nq]; // j2 and j3 have same offset from j1

    // At q=0, j2 and j3 are at the same world position
    let f2 = constraint_frame_at_joint("left", 2);
    let f3 = constraint_frame_at_joint("right", 3);

    let cm = ConstraintModel::from_constraints(vec![
        RigidConstraint::position(f2, f3),
    ]);
    let err = compute_constraint_error(&model, &q, &cm);

    // At zero config, both j2 and j3 are at (1,0,0) → error = 0
    near(err.norm(), 0.0, 1e-12);
}

#[test]
fn constraint_error_nonzero_when_frames_differ() {
    let model = constraint_y_tree();
    let q = vec![0.0, 0.5, -0.5]; // j2 and j3 at different rotations

    let f2 = constraint_frame_at_joint("left", 2);
    let f3 = constraint_frame_at_joint("right", 3);

    let cm = ConstraintModel::from_constraints(vec![
        RigidConstraint::pose(f2, f3),
    ]);
    let err = compute_constraint_error(&model, &q, &cm);
    assert!(err.norm() > 0.01, "error should be nonzero when frames differ");
}

#[test]
fn constraint_error_with_desired_offset() {
    let model = constraint_y_tree();
    let q = vec![0.0; model.nq];

    let f2 = constraint_frame_at_joint("left", 2);
    let f3 = constraint_frame_at_joint("right", 3);

    // Desired: frame2 is at (0.5, 0, 0) relative to frame1
    let desired = se3_from_rotation_and_translation(
        &Rotation3::identity(),
        &Vector3::new(0.5, 0.0, 0.0),
    );

    let cm = ConstraintModel::from_constraints(vec![
        RigidConstraint::position(f2, f3).with_desired_placement(desired),
    ]);

    let err = compute_constraint_error(&model, &q, &cm);
    // At q=0, j2 == j3 position, but desired offset is (0.5,0,0)
    // So error = p2 - (p1 + R1*p_des) = 0 - 0.5 = -0.5 in x
    near(err[0], -0.5, 1e-12);
    near(err[1], 0.0, 1e-12);
    near(err[2], 0.0, 1e-12);
}

// ── Constraint Jacobian ─────────────────────────────────────────────

#[test]
fn constraint_jacobian_shape() {
    let model = constraint_y_tree();
    let q = vec![0.0; model.nq];

    let f2 = constraint_frame_at_joint("left", 2);
    let f3 = constraint_frame_at_joint("right", 3);

    let cm = ConstraintModel::from_constraints(vec![
        RigidConstraint::position(f2, f3),
    ]);

    let jc = compute_constraint_jacobian(&model, &q, &cm);
    assert_eq!(jc.nrows(), 3);
    assert_eq!(jc.ncols(), model.nv);
}

#[test]
fn constraint_jacobian_6d_shape() {
    let model = constraint_y_tree();
    let q = vec![0.0; model.nq];

    let f2 = constraint_frame_at_joint("left", 2);
    let f3 = constraint_frame_at_joint("right", 3);

    let cm = ConstraintModel::from_constraints(vec![
        RigidConstraint::pose(f2, f3),
    ]);

    let jc = compute_constraint_jacobian(&model, &q, &cm);
    assert_eq!(jc.nrows(), 6);
    assert_eq!(jc.ncols(), model.nv);
}

#[test]
fn constraint_jacobian_multiple_constraints_stacked() {
    let model = constraint_dual_arm();
    let q = vec![0.0; model.nq];

    let left_tip = constraint_frame_at_joint("left_tip", 3);
    let right_tip = constraint_frame_at_joint("right_tip", 5);
    let world_anchor = Frame {
        name: "world".into(),
        parent_joint: 0,
        placement: se3_from_rotation_and_translation(
            &Rotation3::identity(),
            &Vector3::new(0.0, 0.0, -1.0),
        ),
    };

    let cm = ConstraintModel::from_constraints(vec![
        RigidConstraint::position(left_tip.clone(), right_tip),  // 3 rows
        RigidConstraint::pose(left_tip, world_anchor),           // 6 rows
    ]);

    let jc = compute_constraint_jacobian(&model, &q, &cm);
    assert_eq!(jc.nrows(), 9);
    assert_eq!(jc.ncols(), model.nv);
}

#[test]
fn constraint_jacobian_finite_diff_validation_3d() {
    // Validate J_c via finite differences: d(error)/dq
    let model = constraint_y_tree();
    let q = vec![0.3, -0.2, 0.5];

    let f2 = constraint_frame_at_joint("left", 2);
    let f3 = constraint_frame_at_joint("right", 3);

    let cm = ConstraintModel::from_constraints(vec![
        RigidConstraint::position(f2, f3),
    ]);

    let jc = compute_constraint_jacobian(&model, &q, &cm);
    let e0 = compute_constraint_error(&model, &q, &cm);

    let eps = 1e-7;
    for col in 0..model.nv {
        let mut q_plus = q.clone();
        q_plus[col] += eps;
        let e_plus = compute_constraint_error(&model, &q_plus, &cm);
        let de = (&e_plus - &e0) / eps;

        for row in 0..3 {
            near(jc[(row, col)], de[row], 1e-5);
        }
    }
}

#[test]
fn constraint_jacobian_finite_diff_validation_6d() {
    // J_c = J2 - J1 is a first-order approximation of d(log error)/dq.
    // The rotation-to-world step adds q-dependent terms that only vanish
    // at e = 0.  We test near constraint satisfaction for accuracy.
    let model = constraint_y_tree();
    let q = vec![0.001, 0.001, -0.001]; // very small → tiny error

    let f2 = constraint_frame_at_joint("left", 2);
    let f3 = constraint_frame_at_joint("right", 3);

    let cm = ConstraintModel::from_constraints(vec![
        RigidConstraint::pose(f2, f3),
    ]);

    let jc = compute_constraint_jacobian(&model, &q, &cm);
    let e0 = compute_constraint_error(&model, &q, &cm);

    let eps = 1e-7;
    for col in 0..model.nv {
        let mut q_plus = q.clone();
        q_plus[col] += eps;
        let e_plus = compute_constraint_error(&model, &q_plus, &cm);
        let de = (&e_plus - &e0) / eps;

        for row in 0..6 {
            near(jc[(row, col)], de[row], 5e-3);
        }
    }
}

#[test]
fn constraint_jacobian_world_anchor_single_branch() {
    // Constrain j2 position to the world origin
    let model = constraint_y_tree();
    let q = vec![0.2, 0.0, 0.0];

    let f2 = constraint_frame_at_joint("left", 2);
    let world_origin = Frame {
        name: "world_origin".into(),
        parent_joint: 0,
        placement: se3_identity(),
    };

    let cm = ConstraintModel::from_constraints(vec![
        RigidConstraint::position(world_origin, f2),
    ]);

    let jc = compute_constraint_jacobian(&model, &q, &cm);
    // J_c = J(f2) - 0 = J(f2) (linear rows)
    // This should be the same as the frame Jacobian of f2 (linear rows)
    let data = forward_kinematics(&model, &q);
    let j_f2 = compute_frame_jacobian_from_data(&model, &q, &data, &constraint_frame_at_joint("left", 2));
    let j_f2_lin = j_f2.rows(3, 3);

    near(jc, j_f2_lin.into_owned(), 1e-12);
}

// ── Cross-branch Jacobian properties ────────────────────────────────

#[test]
fn constraint_cross_branch_jacobian_nonzero_both_branches() {
    // For a cross-branch constraint between tip frames, the Jacobian
    // should have nonzero columns for joints on BOTH branches.
    // Offsets must be perpendicular to the rotation axes:
    // j2 is revolute_x → offset along Z; j3 is revolute_y → offset along Z.
    let model = constraint_y_tree();
    let q = vec![0.3, 0.2, -0.4];

    let f2 = constraint_frame_with_offset("left_tip", 2, Vector3::new(0.0, 0.0, 0.5));
    let f3 = constraint_frame_with_offset("right_tip", 3, Vector3::new(0.0, 0.0, 0.5));

    let cm = ConstraintModel::from_constraints(vec![
        RigidConstraint::position(f2, f3),
    ]);

    let jc = compute_constraint_jacobian(&model, &q, &cm);

    // Column 1 (j2) and column 2 (j3) should both be nonzero
    let col1_norm = jc.column(1).norm();
    let col2_norm = jc.column(2).norm();
    assert!(col1_norm > 1e-6, "j2 column should be nonzero: {col1_norm}");
    assert!(col2_norm > 1e-6, "j3 column should be nonzero: {col2_norm}");
}

#[test]
fn constraint_cross_branch_jacobian_common_ancestor_column() {
    // j1 is the common ancestor of j2 and j3.
    // For a position constraint between j2 and j3, j1's column should
    // capture the relative motion (cancel in angular, lever-arm difference
    // in linear).
    let model = constraint_y_tree();
    let q = vec![0.0; model.nq];

    let f2 = constraint_frame_at_joint("left", 2);
    let f3 = constraint_frame_at_joint("right", 3);

    let cm = ConstraintModel::from_constraints(vec![
        RigidConstraint::position(f2, f3),
    ]);

    let jc = compute_constraint_jacobian(&model, &q, &cm);

    // At q=0, j2 and j3 are at the same point → j1 column should be zero
    // because rotating j1 moves both equally.
    let col0 = jc.column(0);
    near(col0.norm(), 0.0, 1e-12);
}

// ── Constrained IK (constraint-only) ────────────────────────────────

#[test]
fn constraint_constrained_ik_converges_cross_branch() {
    // Make j2 and j3 tips meet by constraint IK
    let model = constraint_y_tree();
    let q0 = vec![0.0, 0.5, -0.5]; // start with different rotations

    let f2 = constraint_frame_at_joint("left", 2);
    let f3 = constraint_frame_at_joint("right", 3);

    let cm = ConstraintModel::from_constraints(vec![
        RigidConstraint::position(f2, f3),
    ]);

    let config = ConstrainedIkConfig {
        max_iters: 200,
        tol_constraint: 1e-8,
        ..Default::default()
    };

    let result = solve_constrained_ik(&model, &q0, &cm, &config);
    assert!(result.converged, "should converge; err={}", result.constraint_error_norm);
    assert!(result.constraint_error_norm < 1e-6);

    // Verify: j2 and j3 world positions should match
    let data = forward_kinematics(&model, &result.q);
    let p2 = se3_translation(&data.oMi[2]);
    let p3 = se3_translation(&data.oMi[3]);
    near(p2, p3, 1e-5);
}

#[test]
fn constraint_constrained_ik_6d_converges() {
    let model = constraint_y_tree();
    let q0 = vec![0.0, 0.3, -0.3];

    let f2 = constraint_frame_at_joint("left", 2);
    let f3 = constraint_frame_at_joint("right", 3);

    let cm = ConstraintModel::from_constraints(vec![
        RigidConstraint::pose(f2, f3),
    ]);

    let config = ConstrainedIkConfig {
        max_iters: 300,
        tol_constraint: 1e-6,
        step_size: 0.3,
        ..Default::default()
    };

    let result = solve_constrained_ik(&model, &q0, &cm, &config);
    assert!(result.converged, "err={}", result.constraint_error_norm);
}

#[test]
fn constraint_constrained_ik_with_desired_offset() {
    // Use tip frames with offset perpendicular to rotation axes
    // so the constraint Jacobian is full-rank.
    let model = constraint_y_tree();
    let q0 = vec![0.0, 0.5, -0.5];

    let f2 = constraint_frame_with_offset("left_tip", 2, Vector3::new(0.0, 0.0, 0.5));
    let f3 = constraint_frame_with_offset("right_tip", 3, Vector3::new(0.0, 0.0, 0.5));

    // Desired: frame3 tip is 0.1m along Y relative to frame2 tip
    let desired = se3_from_rotation_and_translation(
        &Rotation3::identity(),
        &Vector3::new(0.0, 0.1, 0.0),
    );

    let cm = ConstraintModel::from_constraints(vec![
        RigidConstraint::position(f2.clone(), f3.clone()).with_desired_placement(desired),
    ]);

    let config = ConstrainedIkConfig {
        max_iters: 1000,
        tol_constraint: 1e-3,
        step_size: 0.3,
        damping: 1e-3,
        ..Default::default()
    };

    let result = solve_constrained_ik(&model, &q0, &cm, &config);
    // With nonzero desired offset the Jacobian J2−J1 is an approximation
    // (missing dR1/dq · t_des term), so convergence to a neighborhood.
    assert!(
        result.constraint_error_norm < 0.05,
        "expected significant error reduction; err={}",
        result.constraint_error_norm
    );
}

// ── Task + constraints (augmented) ──────────────────────────────────

#[test]
fn constraint_task_with_constraints_dual_arm() {
    // Both hands must meet (constraint) while left tip reaches target.
    let model = constraint_dual_arm();
    let q0 = vec![0.0; model.nq];

    let left_tip = constraint_frame_with_offset("left_tip", 3, Vector3::new(0.0, 0.0, -0.3));
    let right_tip = constraint_frame_with_offset("right_tip", 5, Vector3::new(0.0, 0.0, -0.3));

    let cm = ConstraintModel::from_constraints(vec![
        RigidConstraint::position(left_tip, right_tip),
    ]);

    let target = Vector3::new(0.0, 0.0, -0.8);

    let config = ConstrainedIkConfig {
        max_iters: 500,
        tol_task: 1e-3,
        tol_constraint: 1e-3,
        step_size: 0.3,
        damping: 1e-2,
        constraint_weight: 5.0,
    };

    let result = solve_task_with_constraints(&model, &q0, 3, target, &cm, &config);

    // The constraint (left==right) should be approximately satisfied
    let data = forward_kinematics(&model, &result.q);
    let p_left = se3_translation(&compute_frame_placement_from_data(
        &data,
        &constraint_frame_with_offset("lt", 3, Vector3::new(0.0, 0.0, -0.3)),
    ));
    let p_right = se3_translation(&compute_frame_placement_from_data(
        &data,
        &constraint_frame_with_offset("rt", 5, Vector3::new(0.0, 0.0, -0.3)),
    ));
    let constraint_err = (p_left - p_right).norm();
    assert!(
        constraint_err < 0.1,
        "cross-branch constraint error too large: {constraint_err}"
    );
}

// ── Local reference frame ───────────────────────────────────────────

#[test]
fn constraint_local_frame_error_rotates() {
    let model = constraint_y_tree();
    let q = vec![0.3, 0.2, -0.4];

    let f2 = constraint_frame_at_joint("left", 2);
    let f3 = constraint_frame_at_joint("right", 3);

    let cm_world = ConstraintModel::from_constraints(vec![
        RigidConstraint::position(f2.clone(), f3.clone()),
    ]);
    let cm_local = ConstraintModel::from_constraints(vec![
        RigidConstraint::position(f2.clone(), f3.clone())
            .with_reference_frame(ReferenceFrame::Local),
    ]);

    let e_world = compute_constraint_error(&model, &q, &cm_world);
    let e_local = compute_constraint_error(&model, &q, &cm_local);

    // They should have the same norm
    near(e_world.norm(), e_local.norm(), 1e-12);

    // But different components (rotated by R1^T)
    let data = forward_kinematics(&model, &q);
    let m1 = compute_frame_placement_from_data(&data, &f2);
    let r1 = se3_rotation_matrix(&m1);
    let expected_local = r1.transpose() * Vector3::new(e_world[0], e_world[1], e_world[2]);
    near(e_local[0], expected_local[0], 1e-12);
    near(e_local[1], expected_local[1], 1e-12);
    near(e_local[2], expected_local[2], 1e-12);
}

#[test]
fn constraint_local_jacobian_finite_diff_validation() {
    let model = constraint_y_tree();
    let q = vec![0.2, 0.3, -0.1];

    let f2 = constraint_frame_at_joint("left", 2);
    let f3 = constraint_frame_at_joint("right", 3);

    let cm = ConstraintModel::from_constraints(vec![
        RigidConstraint::position(f2, f3)
            .with_reference_frame(ReferenceFrame::Local),
    ]);

    let jc = compute_constraint_jacobian(&model, &q, &cm);
    let e0 = compute_constraint_error(&model, &q, &cm);

    let eps = 1e-7;
    for col in 0..model.nv {
        let mut q_plus = q.clone();
        q_plus[col] += eps;
        let e_plus = compute_constraint_error(&model, &q_plus, &cm);
        let de = (&e_plus - &e0) / eps;

        for row in 0..3 {
            near(jc[(row, col)], de[row], 1e-4);
        }
    }
}

// ── Integration with constrained_forward_dynamics ───────────────────

#[test]
fn constraint_constraint_jacobian_in_kkt() {
    // Use tip frames with offset so Jc is full-rank for KKT.

    let offset = se3_from_rotation_and_translation(
        &Rotation3::identity(),
        &Vector3::new(1.0, 0.0, 0.0),
    );
    let inertia = LinkInertia {
        mass: 1.0,
        center_of_mass: Vector3::new(0.5, 0.0, 0.0),
        rotational_inertia: na::Matrix3::from_diagonal(&Vector3::new(0.1, 0.1, 0.01)),
    };
    let model = ModelBuilder::new()
        .add_joint("j1", 0, revolute_z(), se3_identity(), inertia.clone())
        .add_joint("j2", 1, revolute_x(), offset.clone(), inertia.clone())
        .add_joint("j3", 1, revolute_y(), offset, inertia.clone())
        .build();

    let q = vec![0.1, 0.2, -0.2];
    let v = vec![0.0; model.nv];
    let tau = vec![0.0; model.nv];

    // Use tip frames with offset so linear Jacobian columns are nonzero
    let f2 = constraint_frame_with_offset("left_tip", 2, Vector3::new(0.5, 0.0, 0.0));
    let f3 = constraint_frame_with_offset("right_tip", 3, Vector3::new(0.5, 0.0, 0.0));

    let cm = ConstraintModel::from_constraints(vec![
        RigidConstraint::position(f2, f3),
    ]);

    let jc = compute_constraint_jacobian(&model, &q, &cm);
    let gamma = DVector::zeros(jc.nrows());

    let result = constrained_forward_dynamics(&model, &q, &v, &tau, &jc, &gamma);
    assert_eq!(result.qdd.len(), model.nv);
    assert_eq!(result.lambda.len(), 3);
}

// ── Frame task + constraint ─────────────────────────────────────────

#[test]
fn constraint_frame_task_with_constraints_converges() {
    let model = constraint_y_tree();
    let q0 = vec![0.0, 0.5, -0.5];

    // Task: bring j2 tip to a specific pose
    let task_frame = constraint_frame_with_offset("tool", 2, Vector3::new(0.5, 0.0, 0.0));
    let target_pose = se3_from_rotation_and_translation(
        &Rotation3::identity(),
        &Vector3::new(1.2, 0.3, 0.0),
    );

    // No constraints for this test (just verify the solver doesn't break)
    let cm = ConstraintModel::new();

    let config = ConstrainedIkConfig {
        max_iters: 300,
        tol_task: 1e-3,
        tol_constraint: 1e-6,
        step_size: 0.3,
        damping: 1e-2,
        constraint_weight: 5.0,
    };

    let result = solve_frame_task_with_constraints(
        &model, &q0, &task_frame, target_pose, &cm, &config,
    );

    // With only 3 DOFs and a 6D task, may not fully converge, but should reduce error
    assert!(result.task_error_norm < 1.0);
}

#[test]
fn constraint_constrained_ik_dual_arm_position() {
    // Dual-arm: constrain both elbow tips to be at the same position
    let model = constraint_dual_arm();
    let q0 = vec![0.0, 0.3, -0.5, -0.3, 0.5];

    // Use tip frames with offset for full-rank Jacobian
    let left_tip = constraint_frame_with_offset("l_tip", 3, Vector3::new(0.0, 0.0, -0.3));
    let right_tip = constraint_frame_with_offset("r_tip", 5, Vector3::new(0.0, 0.0, -0.3));

    let cm = ConstraintModel::from_constraints(vec![
        RigidConstraint::position(left_tip.clone(), right_tip.clone()),
    ]);

    let config = ConstrainedIkConfig {
        max_iters: 500,
        tol_constraint: 1e-4,
        step_size: 0.5,
        damping: 1e-3,
        ..Default::default()
    };

    let result = solve_constrained_ik(&model, &q0, &cm, &config);
    assert!(result.converged, "err={}", result.constraint_error_norm);

    let data = forward_kinematics(&model, &result.q);
    let p_l = se3_translation(&compute_frame_placement_from_data(&data, &left_tip));
    let p_r = se3_translation(&compute_frame_placement_from_data(&data, &right_tip));
    near(p_l, p_r, 1e-3);
}

// ── QP-based inequality-constrained IK ──────────────────────────────

#[test]
fn constraint_joint_limit_inequalities_shape() {
    let model = constraint_y_tree();
    let q = vec![0.0; model.nq];
    let mut limits = JointLimits::unbounded(&model);
    // Set finite limits on all 3 joints
    for i in 0..model.nq {
        limits.q_min[i] = -1.5;
        limits.q_max[i] = 1.5;
    }
    let (a, b) = build_joint_limit_inequalities(&model, &q, &limits);
    // 3 joints × 2 (upper + lower) = 6 rows
    assert_eq!(a.nrows(), 6);
    assert_eq!(a.ncols(), model.nv);
    assert_eq!(b.nrows(), 6);
}

#[test]
fn constraint_joint_limit_inequalities_values() {
    let model = constraint_y_tree();
    let q = vec![0.5, -0.3, 0.8];
    let mut limits = JointLimits::unbounded(&model);
    limits.q_min = vec![-1.0, -1.0, -1.0];
    limits.q_max = vec![1.0, 1.0, 1.0];

    let (a, b) = build_joint_limit_inequalities(&model, &q, &limits);

    // dq=0 should satisfy all inequalities (since q is within limits)
    let dq_zero = na::DVector::zeros(model.nv);
    let vals = &a * &dq_zero;
    for i in 0..a.nrows() {
        assert!(vals[i] <= b[i] + 1e-12, "dq=0 should be feasible, row {i}");
    }
}

#[test]
fn constraint_max_step_inequalities_shape() {
    let (a, b) = build_max_step_inequalities(5, 0.1);
    assert_eq!(a.nrows(), 10); // 2 * 5
    assert_eq!(a.ncols(), 5);
    for i in 0..10 {
        near(b[i], 0.1, 1e-15);
    }
}

#[test]
fn constraint_stack_inequalities_works() {
    let a1 = na::DMatrix::identity(2, 3);
    let b1 = na::DVector::from_vec(vec![1.0, 2.0]);
    let a2 = na::DMatrix::from_element(1, 3, 0.5);
    let b2 = na::DVector::from_element(1, 3.0);

    let (a, b) = stack_inequalities(&[(&a1, &b1), (&a2, &b2)]);
    assert_eq!(a.nrows(), 3);
    assert_eq!(a.ncols(), 3);
    assert_eq!(b.nrows(), 3);
    near(b[2], 3.0, 1e-15);
}

#[test]
fn constraint_qp_ik_no_limits_matches_dls() {
    // Without inequality constraints, the QP solver should behave like DLS.
    let model = constraint_y_tree();
    let q0 = vec![0.0, 0.5, -0.5];

    let f2 = constraint_frame_at_joint("left", 2);
    let f3 = constraint_frame_at_joint("right", 3);
    let cm = ConstraintModel::from_constraints(vec![
        RigidConstraint::position(f2, f3),
    ]);

    let config = QpIkConfig {
        max_iters: 200,
        tol_constraint: 1e-6,
        step_size: 0.5,
        damping: 1e-3,
        constraint_weight: 10.0,
        ..Default::default()
    };

    let result = solve_constrained_ik_qp(&model, &q0, &cm, &config);
    assert!(result.converged, "should converge; err={}", result.constraint_error_norm);
    assert!(result.constraint_error_norm < 1e-4);
}

#[test]
fn constraint_qp_ik_with_joint_limits_respected() {
    // IK should respect joint limits even when convergence requires
    // going beyond them.
    let model = constraint_y_tree();
    let q0 = vec![0.0, 0.5, -0.5];

    let f2 = constraint_frame_at_joint("left", 2);
    let f3 = constraint_frame_at_joint("right", 3);
    let cm = ConstraintModel::from_constraints(vec![
        RigidConstraint::position(f2, f3),
    ]);

    let mut limits = JointLimits::unbounded(&model);
    limits.q_min = vec![-0.3, -0.3, -0.3];
    limits.q_max = vec![0.3, 0.3, 0.3];

    let config = QpIkConfig {
        max_iters: 300,
        tol_constraint: 1e-6,
        step_size: 0.5,
        damping: 1e-3,
        constraint_weight: 10.0,
        joint_limits: Some(limits.clone()),
        ..Default::default()
    };

    let result = solve_constrained_ik_qp(&model, &q0, &cm, &config);

    // Check that the solution respects joint limits
    for (i, &qi) in result.q.iter().enumerate() {
        assert!(
            qi >= limits.q_min[i] - 1e-6,
            "joint {i} below lower limit: {qi} < {}",
            limits.q_min[i]
        );
        assert!(
            qi <= limits.q_max[i] + 1e-6,
            "joint {i} above upper limit: {qi} > {}",
            limits.q_max[i]
        );
    }
}

#[test]
fn constraint_qp_ik_with_max_step() {
    let model = constraint_y_tree();
    let q0 = vec![0.0, 0.5, -0.5];

    let f2 = constraint_frame_at_joint("left", 2);
    let f3 = constraint_frame_at_joint("right", 3);
    let cm = ConstraintModel::from_constraints(vec![
        RigidConstraint::position(f2, f3),
    ]);

    let config = QpIkConfig {
        max_iters: 500,
        tol_constraint: 1e-6,
        step_size: 1.0,
        damping: 1e-3,
        constraint_weight: 10.0,
        max_step: Some(0.05),
        ..Default::default()
    };

    let result = solve_constrained_ik_qp(&model, &q0, &cm, &config);
    // Should still converge (just takes more iterations)
    assert!(
        result.constraint_error_norm < 0.01,
        "should reduce error; err={}",
        result.constraint_error_norm
    );
}

#[test]
fn constraint_qp_task_ik_with_joint_limits() {
    // Position IK with joint limits
    let model = constraint_y_tree();
    let q0 = vec![0.0; model.nq];
    let target = Vector3::new(0.8, 0.5, 0.0);

    let mut limits = JointLimits::unbounded(&model);
    limits.q_min = vec![-1.0, -1.0, -1.0];
    limits.q_max = vec![1.0, 1.0, 1.0];

    let cm = ConstraintModel::new(); // no equality constraints

    let config = QpIkConfig {
        max_iters: 300,
        tol_task: 1e-3,
        tol_constraint: 1e-6,
        step_size: 0.5,
        damping: 1e-2,
        constraint_weight: 10.0,
        joint_limits: Some(limits.clone()),
        ..Default::default()
    };

    let result = solve_task_with_constraints_qp(
        &model, &q0, 2, target, &cm, &config,
    );

    // Verify joint limits
    for (i, &qi) in result.q.iter().enumerate() {
        assert!(qi >= limits.q_min[i] - 1e-6, "lower limit violated j{i}");
        assert!(qi <= limits.q_max[i] + 1e-6, "upper limit violated j{i}");
    }

    // Check task error reduced
    assert!(result.task_error_norm < 0.5, "task err={}", result.task_error_norm);
}

#[test]
fn constraint_qp_task_ik_tight_limits() {
    // With very tight joint limits, the IK should NOT violate them,
    // even if the task can't be achieved.
    let model = constraint_y_tree();
    let q0 = vec![0.0; model.nq];
    let target = Vector3::new(2.0, 0.0, 0.0); // far target

    let mut limits = JointLimits::unbounded(&model);
    limits.q_min = vec![-0.1, -0.1, -0.1];
    limits.q_max = vec![0.1, 0.1, 0.1];

    let cm = ConstraintModel::new();
    let config = QpIkConfig {
        max_iters: 100,
        tol_task: 1e-3,
        step_size: 0.5,
        damping: 1e-2,
        joint_limits: Some(limits.clone()),
        ..Default::default()
    };

    let result = solve_task_with_constraints_qp(
        &model, &q0, 2, target, &cm, &config,
    );

    // Task won't converge (limits too tight), but limits must be respected
    for (i, &qi) in result.q.iter().enumerate() {
        assert!(qi >= limits.q_min[i] - 1e-6, "j{i} < lower");
        assert!(qi <= limits.q_max[i] + 1e-6, "j{i} > upper");
    }
}

#[test]
fn constraint_qp_task_with_equality_and_inequality() {
    // Dual-arm: hands must meet (equality), joint limits active.
    let model = constraint_dual_arm();
    let q0 = vec![0.0; model.nq];

    let left_tip = constraint_frame_with_offset("l_tip", 3, Vector3::new(0.0, 0.0, -0.3));
    let right_tip = constraint_frame_with_offset("r_tip", 5, Vector3::new(0.0, 0.0, -0.3));

    let cm = ConstraintModel::from_constraints(vec![
        RigidConstraint::position(left_tip, right_tip),
    ]);

    let target = Vector3::new(0.0, 0.0, -0.7);

    let mut limits = JointLimits::unbounded(&model);
    for i in 0..model.nq {
        limits.q_min[i] = -1.5;
        limits.q_max[i] = 1.5;
    }

    let config = QpIkConfig {
        max_iters: 500,
        tol_task: 1e-2,
        tol_constraint: 1e-2,
        step_size: 0.3,
        damping: 1e-2,
        constraint_weight: 5.0,
        joint_limits: Some(limits.clone()),
        ..Default::default()
    };

    let result = solve_task_with_constraints_qp(
        &model, &q0, 3, target, &cm, &config,
    );

    // Joint limits must be respected
    for (i, &qi) in result.q.iter().enumerate() {
        assert!(qi >= limits.q_min[i] - 1e-6, "j{i} limit");
        assert!(qi <= limits.q_max[i] + 1e-6, "j{i} limit");
    }
}

#[test]
fn constraint_qp_frame_task_with_limits() {
    // 6D frame IK with joint limits
    let model = constraint_y_tree();
    let q0 = vec![0.0, 0.3, -0.3];

    let task_frame = constraint_frame_with_offset("tool", 2, Vector3::new(0.5, 0.0, 0.0));
    let target_pose = se3_from_rotation_and_translation(
        &Rotation3::identity(),
        &Vector3::new(1.2, 0.3, 0.0),
    );

    let mut limits = JointLimits::unbounded(&model);
    limits.q_min = vec![-1.5, -1.5, -1.5];
    limits.q_max = vec![1.5, 1.5, 1.5];

    let cm = ConstraintModel::new();
    let config = QpIkConfig {
        max_iters: 300,
        tol_task: 1e-3,
        step_size: 0.3,
        damping: 1e-2,
        joint_limits: Some(limits.clone()),
        ..Default::default()
    };

    let result = solve_frame_task_with_constraints_qp(
        &model, &q0, &task_frame, target_pose, &cm, &config,
    );

    // Joint limits respected
    for (i, &qi) in result.q.iter().enumerate() {
        assert!(qi >= limits.q_min[i] - 1e-6);
        assert!(qi <= limits.q_max[i] + 1e-6);
    }

    // With only 3 DOFs and a 6D task, it won't fully converge
    assert!(result.task_error_norm < 1.0);
}

#[test]
fn constraint_qp_ik_limits_inactive_same_as_no_limits() {
    // When all limits are very wide, the QP solution should be close
    // to the unconstrained DLS solution.
    let model = constraint_y_tree();
    let q0 = vec![0.0, 0.5, -0.5];

    let f2 = constraint_frame_at_joint("left", 2);
    let f3 = constraint_frame_at_joint("right", 3);
    let cm = ConstraintModel::from_constraints(vec![
        RigidConstraint::position(f2, f3),
    ]);

    // Wide limits (won't be active)
    let mut limits = JointLimits::unbounded(&model);
    limits.q_min = vec![-10.0; model.nq];
    limits.q_max = vec![10.0; model.nq];

    let config_no_lim = QpIkConfig {
        max_iters: 200,
        tol_constraint: 1e-6,
        step_size: 0.5,
        damping: 1e-3,
        constraint_weight: 10.0,
        ..Default::default()
    };

    let config_wide_lim = QpIkConfig {
        joint_limits: Some(limits),
        ..config_no_lim.clone()
    };

    let r1 = solve_constrained_ik_qp(&model, &q0, &cm, &config_no_lim);
    let r2 = solve_constrained_ik_qp(&model, &q0, &cm, &config_wide_lim);

    // Both should converge to similar solutions
    assert!(r1.converged);
    assert!(r2.converged);
    let diff: f64 = r1.q.iter().zip(&r2.q).map(|(a, b)| (a - b).abs()).sum();
    assert!(diff < 0.1, "wide-limit solution should match no-limit: diff={diff}");
}

// ── Further properties ──

fn floating_arm() -> Model {
    let link = |m: f64| LinkInertia {
        mass: m,
        center_of_mass: Vector3::new(0.1, 0.05, -0.2),
        rotational_inertia: Matrix3::new(0.3, 0.01, 0.02, 0.01, 0.2, 0.03, 0.02, 0.03, 0.1),
    };
    let offset = se3_from_rotation_and_translation(&Rotation3::identity(), &Vector3::new(0.3, 0.0, 0.1));
    ModelBuilder::new()
        .add_joint("base", 0, JointType::FreeFlyer, se3_identity(), link(4.0))
        .add_joint("j1", 1, revolute_y(), offset, link(1.0))
        .add_joint("j2", 2, prismatic_x(), offset, link(0.5))
        .build()
}

fn floating_state() -> (Vec<f64>, Vec<f64>) {
    let turn = UnitQuaternion::from_euler_angles(0.2, -0.4, 0.7);
    let r = turn.quaternion();
    let q = vec![0.1, -0.2, 0.3, r.i, r.j, r.k, r.w, 0.6, -0.1];
    let v = vec![0.3, -0.2, 0.1, 0.5, 0.4, -0.3, 0.8, -0.6];
    (q, v)
}

#[test]
fn mass_matrix_of_a_floating_base_is_symmetric() {
    let model = floating_arm();
    let (q, _) = floating_state();
    let m = crba(&model, &q);
    assert_eq!((m.nrows(), m.ncols()), (8, 8));
    assert_eq!(m, m.transpose());
    assert!(m[(0, 4)].abs() > 1e-6);
}

#[test]
fn mass_matrix_of_a_floating_base_moves_like_rnea() {
    let model = floating_arm();
    let (q, v) = floating_state();
    let a = vec![0.2, 0.1, -0.3, 0.4, 0.5, -0.6, 0.7, -0.8];
    let tau = rnea(&model, &q, &v, &a);
    let rhs = crba(&model, &q) * DVector::from_column_slice(&a) + nonlinear_effects(&model, &q, &v);
    near(tau.clone(), rhs, 1e-9);
    let tau: Vec<f64> = tau.iter().copied().collect();
    near(aba(&model, &q, &v, &tau), DVector::from_column_slice(&a), 1e-8);
}

#[test]
fn moving_there_and_back_changes_nothing() {
    let model = floating_arm();
    let (q, v) = floating_state();
    let there = integrate(&Floats, &model, &to_reals(&q), &to_reals(&v), to_real(0.7));
    let back = misarta::manifold::difference(&Floats, &model, &to_reals(&q), &there);
    let expected: Vec<f64> = v.iter().map(|x| x * 0.7).collect();
    near(dvector(&back), DVector::from_column_slice(&expected), 1e-9);
    let flat = misarta::manifold::normalize_configuration(&Floats, &model, &there);
    near(dvector(&flat), dvector(&there), 1e-12);
}

#[test]
fn clamped_configurations_stay_clamped() {
    let model = jacobian_three_link_arm();
    let mut lim = LibLimits::unbounded(&model);
    lim.q_min = to_reals(&[-1.0, 0.5, -3.0]);
    lim.q_max = to_reals(&[1.0, 0.6, 3.0]);
    lim.v_max = to_reals(&[0.1, 0.2, 0.3]);
    let r = misarta::limits::clamp_configuration(&model, &to_reals(&[-2.0, 0.0, 1.5]), &lim);
    assert_eq!(to_floats(&r), vec![-1.0, 0.5, 1.5]);
    assert_eq!(misarta::limits::clamp_configuration(&model, &r, &lim), r);
    let v = misarta::limits::saturate_velocity(&model, &to_reals(&[-2.0, 0.15, 9.0]), &lim);
    assert_eq!(to_floats(&v), vec![-0.1, 0.15, 0.3]);
}

#[test]
fn base_of_a_free_flyer_is_clamped_too() {
    let model = floating_arm();
    let mut lim = LibLimits::unbounded(&model);
    lim.q_max[0] = to_real(0.05);
    lim.q_max[3] = to_real(-5.0);
    let (q, _) = floating_state();
    let r = misarta::limits::clamp_configuration(&model, &to_reals(&q), &lim);
    assert_eq!(to_float(r[0]), 0.05);
    assert_eq!(to_float(r[3]), q[3]);
}

#[test]
fn unlimited_joints_carry_any_payload() {
    let model = analysis_pendulum(1.0, 0.5);
    let limits = JointLimits::unbounded(&model);
    assert!(payload_capacity(&model, &[0.0], 1, &limits).is_none());
}

#[test]
fn singular_steps_fail() {
    let model = ik_two_link_planar();
    let cfg = IkConfig { damping: Damping::Fixed(0.0), ..IkConfig::default() };
    let target = Vector3::new(0.8, 0.6, 0.0);
    let r = solve_joint_position_ik(&model, &[0.1, -0.3], 2, target, &cfg);
    assert_eq!(r.status, IkStatus::NumericalFailure);
    assert_eq!(r.q, vec![0.1, -0.3]);
}

#[test]
fn reached_targets_take_no_step() {
    let model = ik_two_link_planar();
    let q0 = vec![0.4, -0.2];
    let target = se3_translation(&forward_kinematics(&model, &q0).oMi[2]);
    let r = solve_joint_position_ik(&model, &q0, 2, target, &IkConfig::default());
    assert_eq!(r.status, IkStatus::Converged);
    assert_eq!(r.q, q0);
}

#[test]
fn frames_reach_poses() {
    let model = floating_arm();
    let (q0, _) = floating_state();
    let f = LibFrame { name: "tool".to_string(), parent_joint: 1, placement: Placement::identity() };
    let target = placement(&se3_from_rotation_and_translation(
        &Rotation3::from_euler_angles(0.1, 0.2, 0.3),
        &Vector3::new(0.2, 0.1, 0.4),
    ));
    let cfg = IkConfig { max_iters: 300, ..IkConfig::default() }.lib();
    let r = ik::solve_frame_pose_ik(&Floats, &model, &to_reals(&q0), &f, target, &cfg);
    assert_eq!(r.status, IkStatus::Converged);
    let r = ik::solve_joint_position_orientation_ik(
        &Floats,
        &model,
        &to_reals(&q0),
        1,
        target.translation,
        target,
        to_real(1.0),
        to_real(0.5),
        &cfg,
    );
    assert_eq!(r.status, IkStatus::Converged);
}

#[test]
fn differential_steps_are_limited() {
    let model = ik_two_link_planar();
    let q = [0.3, -0.5];
    let jac = compute_joint_jacobian(&model, &q, 2).rows(3, 3).into_owned();
    let ee = se3_translation(&forward_kinematics(&model, &q).oMi[2]);
    let cfg = DiffIkConfig { max_joint_step: 0.01, gain: 50.0, ..DiffIkConfig::default() };
    let r = differential_ik_step(&jac, &ee, &Vector3::new(-3.0, 2.0, 0.0), &cfg);
    assert!(r.dq.iter().all(|x| x.abs() <= 0.01));
    assert!(r.dq.iter().any(|x| x.abs() > 0.009));
}

#[test]
fn far_joints_cost_more() {
    let w = LibWeights::ee_proximal(&Floats, 4, &[0, 2, 3], to_real(2.0));
    assert_eq!(w.weights.len(), 4);
    let u = LibWeights::uniform(3);
    assert_eq!(to_floats(&u.weights), vec![1.0, 1.0, 1.0]);
}

#[test]
fn gradients_point_towards_collision() {
    let model = jacobian_three_link_arm();
    let mut gm = GeometryModel::new();
    gm.add(object("base", 0, se3_identity(), GeometryShape::Sphere { radius: 0.2 }));
    gm.add(object("tip", 3, se3_identity(), GeometryShape::Sphere { radius: 0.2 }));
    let q = vec![0.0, 2.4, 0.0];
    let g = collision::collision_potential_gradient(
        &Floats,
        &model,
        &gm,
        &to_reals(&q),
        None,
        to_real(2.0),
        to_real(1e-6),
    );
    let g = to_floats(&g);
    let v = collision_potential(&model, &gm, &q, None, 2.0);
    let closer = collision_potential(&model, &gm, &[0.0, 2.4 + 1e-3 * g[1].signum(), 0.0], None, 2.0);
    assert!(closer > v);
    near(g[0], 0.0, 1e-6);
}

#[test]
fn unknown_shapes_do_not_collide() {
    let model = collision_two_joint_model();
    let mut gm = GeometryModel::new();
    let mesh = || GeometryShape::Mesh { filename: "a.stl".to_string(), scale: Vector3::new(1.0, 1.0, 1.0) };
    gm.add(object("a", 1, se3_identity(), mesh()));
    gm.add(object("b", 1, se3_identity(), GeometryShape::Sphere { radius: 1.0 }));
    gm.add(object("c", 99, se3_identity(), GeometryShape::Sphere { radius: 1.0 }));
    assert!(collision_pairs(&model, &gm, &[0.0], false).is_empty());
    assert_eq!(minimum_distance(&model, &gm, &[0.0], false), None);
    assert!(collision::collision_pairs_acm(&Floats, &model, &gm, &to_reals(&[0.0]), None).is_empty());
}

#[test]
fn cylinders_lie_along_z() {
    let model = collision_two_joint_model();
    let mut gm = GeometryModel::new();
    gm.add(object("a", 1, se3_identity(), GeometryShape::Cylinder { radius: 0.1, length: 4.0 }));
    let above = se3_from_rotation_and_translation(&Rotation3::identity(), &Vector3::new(0.0, 0.0, 1.5));
    gm.add(object("b", 1, above, GeometryShape::Sphere { radius: 0.1 }));
    let beside = se3_from_rotation_and_translation(&Rotation3::identity(), &Vector3::new(0.0, 1.5, 0.0));
    gm.add(object("c", 1, beside, GeometryShape::Sphere { radius: 0.1 }));
    assert_eq!(collision_pairs(&model, &gm, &[0.0], false), vec![CollisionPair { a: 0, b: 1 }]);
}

#[test]
fn singular_constraints_have_no_solution() {
    let model = constrained_two_link_arm();
    let jc = matrix(&DMatrix::from_row_slice(2, 2, &[1.0, 0.0, 1.0, 0.0]));
    let q = to_reals(&[0.3, -0.2]);
    let v = to_reals(&[0.0, 0.0]);
    let r = constrained::constrained_forward_dynamics(&Floats, &model, &q, &v, &v, &jc, &v);
    assert!(r.is_none());
    let r = constrained::impact_dynamics(&Floats, &model, &q, &v, &jc, to_real(0.0));
    assert!(r.is_none());
}

#[test]
fn indefinite_mass_matrices_have_no_derivatives() {
    let mut d = Floats.rnea_derivatives(
        &aba_two_link_arm(),
        &to_reals(&[0.3, -0.5]),
        &to_reals(&[0.0, 0.0]),
        &to_reals(&[0.0, 0.0]),
    );
    assert!(aba_derivatives::derive(&Floats, &d, 2).is_some());
    d.dtau_da.set(0, 0, to_real(-1.0));
    assert!(aba_derivatives::derive(&Floats, &d, 2).is_none());
}

#[test]
fn joints_are_found_by_name() {
    let model = aba_two_link_arm();
    assert_eq!(model.joint_index("j2"), Some(2));
    assert_eq!(model.joint_index("j9"), None);
}

#[test]
fn converged_constraints_are_within_tolerance() {
    let model = cik_y_tree();
    let cm = ConstraintModel::from_constraints(vec![RigidConstraint::position(
        cik_frame_at_joint("left", 2),
        cik_frame_at_joint("right", 3),
    )]);
    let cfg = ConstrainedIkConfig { max_iters: 200, tol_constraint: 1e-8, ..Default::default() };
    let r = solve_constrained_ik(&model, &[0.0, 0.5, -0.5], &cm, &cfg);
    assert!(r.converged && r.constraint_error_norm < 1e-8);
    let r = solve_constrained_ik(
        &model,
        &[0.0, 0.5, -0.5],
        &cm,
        &ConstrainedIkConfig { max_iters: 0, ..cfg },
    );
    assert!(r.converged && r.iterations == 0);
    let apart = ConstraintModel::from_constraints(vec![RigidConstraint::position(
        cik_frame_at_joint("left", 2),
        cik_frame_with_offset("right", 3, Vector3::new(0.0, 0.0, 0.5)),
    )]);
    let none = ConstrainedIkConfig { max_iters: 0, tol_constraint: 1e-8, ..Default::default() };
    assert!(!solve_constrained_ik(&model, &[0.0, 0.5, -0.5], &apart, &none).converged);
}

#[test]
fn constraints_have_names() {
    let c = LibConstraint::pose(cik_frame_at_joint("a", 1).lib(), cik_frame_at_joint("b", 2).lib());
    assert!(c.name.contains('a') && c.name.contains('b'));
    assert_eq!(c.dim(), 6);
    let c = c.with_name("hands".to_string());
    assert_eq!(c.name, "hands");
}

#[test]
fn adjacent_matrix_skips_what_the_flag_skips() {
    let model = ik_two_link_planar();
    let mut gm = GeometryModel::new();
    gm.add(object("a", 0, se3_identity(), GeometryShape::Sphere { radius: 3.0 }));
    gm.add(object("b", 1, se3_identity(), GeometryShape::Sphere { radius: 3.0 }));
    gm.add(object("c", 2, se3_identity(), GeometryShape::Sphere { radius: 3.0 }));
    let q = [0.2, -0.4];
    let acm = AllowedCollisionMatrix::from_adjacent_links(&model, &gm);
    let flagged = collision_pairs(&model, &gm, &q, true);
    assert_eq!(flagged, vec![CollisionPair { a: 0, b: 2 }]);
    assert_eq!(
        collision::collision_pairs_acm(&Floats, &model, &gm, &to_reals(&q), Some(&acm)),
        flagged
    );
    assert_eq!(collision_pairs(&model, &gm, &q, false).len(), 3);
}

#[test]
fn failing_searches_tell_the_steps_taken() {
    let model = cik_y_tree();
    let cm = ConstraintModel::from_constraints(vec![RigidConstraint::position(
        cik_frame_at_joint("here", 0),
        cik_frame_with_offset("there", 0, Vector3::new(1.0, 0.0, 0.0)),
    )]);
    let q = to_reals(&[0.0, 0.5, -0.5]);
    let cfg = ConstrainedIkConfig { max_iters: 7, damping: 0.0, ..Default::default() };
    let r = constraint::solve_constrained_ik(&Floats, &model, &q, &cm.inner, &cfg.lib());
    assert!(!r.converged);
    assert_eq!(r.iterations, 0);
    assert_eq!(to_float(r.constraint_error_norm), 1.0);
    let cfg = ConstrainedIkConfig { damping: 0.1, ..cfg };
    let r = constraint::solve_constrained_ik(&Floats, &model, &q, &cm.inner, &cfg.lib());
    assert!(!r.converged);
    assert_eq!(r.iterations, 7);
}

#[test]
fn massive_roots_slow_the_center_of_mass() {
    let (mut model, q) = centroidal_two_link_arm();
    let light = compute_com_jacobian(&model, &q);
    model.inertias[0].mass = to_real(3.0);
    let heavy = compute_com_jacobian(&model, &q);
    let mass = to_float(centroidal::total_mass(&Floats, &model));
    assert!((light * ((mass - 3.0) / mass) - &heavy).norm() < 1e-12);
    for k in 0..q.len() {
        let (mut a, mut b) = (q.clone(), q.clone());
        a[k] += 1e-6;
        b[k] -= 1e-6;
        let d = (compute_com(&model, &a) - compute_com(&model, &b)) / 2e-6;
        assert!((heavy.column(k) - d).norm() < 1e-6);
    }
}

#[test]
fn loaded_meshes_collide() {
    let model = collision_two_joint_model();
    let mesh = || GeometryShape::Mesh { filename: "a.stl".to_string(), scale: Vector3::new(2.0, 2.0, 2.0) };
    let point = |x: f64, y: f64, z: f64| misarta::number::Point3 { x: to_real(x), y: to_real(y), z: to_real(z) };
    let triangle = || misarta::mesh::MeshData {
        vertices: vec![point(0.0, 0.0, 0.0), point(1.0, 0.0, 0.0), point(0.0, 1.0, 0.0)],
        indices: vec![[0, 1, 2]],
        face_normals: Vec::new(),
        vertex_normals: Vec::new(),
        texcoords: Vec::new(),
        materials: Vec::new(),
        submeshes: Vec::new(),
    };
    let up = se3_from_rotation_and_translation(&Rotation3::identity(), &Vector3::new(0.5, 0.5, 1.0));
    let mut gm = GeometryModel::new();
    gm.add(object("mesh", 1, se3_identity(), mesh()));
    gm.add(object("ball", 1, up, GeometryShape::Sphere { radius: 0.25 }));
    assert_eq!(minimum_distance(&model, &gm, &[0.0], false), None);
    gm.objects[0].mesh_data = Some(triangle());
    let d = minimum_distance(&model, &gm, &[0.0], false).unwrap();
    assert!((d - 0.75).abs() < 1e-9, "{d}");
    assert!(collision_pairs(&model, &gm, &[0.0], false).is_empty());
    gm.objects[1] = object("ball", 1, up, GeometryShape::Sphere { radius: 1.25 });
    assert_eq!(collision_pairs(&model, &gm, &[0.0], false), vec![CollisionPair { a: 0, b: 1 }]);
}

#[test]
fn collisions_are_listed_in_order() {
    let model = ik_two_link_planar();
    let mut gm = GeometryModel::new();
    for (name, joint) in [("a", 2), ("b", 0), ("c", 99), ("d", 1), ("e", 0)] {
        gm.add(object(name, joint, se3_identity(), GeometryShape::Sphere { radius: 5.0 }));
    }
    let pairs: Vec<(usize, usize)> =
        collision_pairs(&model, &gm, &[0.1, 0.2], false).iter().map(|p| (p.a, p.b)).collect();
    assert_eq!(pairs, vec![(0, 1), (0, 3), (0, 4), (1, 3), (1, 4), (3, 4)]);
}

#[test]
fn matrices_can_be_cloned() {
    let mut acm = AllowedCollisionMatrix::new();
    acm.allow(3, 1);
    acm.allow(2, 5);
    let copy = acm.clone();
    acm.disallow(1, 3);
    assert!(copy.is_allowed(1, 3) && copy.is_allowed(5, 2) && !copy.is_allowed(1, 2));
    assert!(!acm.is_allowed(1, 3));
}

#[test]
fn saturated_joints_leave_nothing() {
    let link = |m: f64| LinkInertia {
        mass: m,
        center_of_mass: Vector3::new(0.5, 0.0, 0.0),
        rotational_inertia: Matrix3::zeros(),
    };
    let far = se3_from_rotation_and_translation(&Rotation3::identity(), &Vector3::new(1.0, 0.0, 0.0));
    let model = ModelBuilder::new()
        .add_joint("heavy", 0, revolute_y(), se3_identity(), link(4.0))
        .add_joint("arm", 0, revolute_y(), se3_identity(), link(1.0))
        .add_joint("tip", 2, revolute_y(), far, link(0.0))
        .build();
    let mut limits = JointLimits::unbounded(&model);
    limits.tau_max[0] = 10.0;
    assert!(payload_capacity(&model, &[0.0, 0.0, 0.0], 3, &limits).is_none());
    limits.tau_max[1] = 30.0;
    let c = payload_capacity(&model, &[0.0, 0.0, 0.0], 3, &limits).unwrap();
    assert_eq!(c.max_mass_kg, 0.0);
    assert_eq!(c.limiting_joint, 1);
    limits.tau_max[0] = 50.0;
    let c = payload_capacity(&model, &[0.0, 0.0, 0.0], 3, &limits).unwrap();
    assert!((c.max_mass_kg - (30.0 - 0.5 * 9.81) / 9.81).abs() < 1e-9);
    assert_eq!(c.limiting_joint, 2);
}

#[test]
fn local_columns_are_body_velocities() {
    let model = jacobian_two_link_arm();
    let j = compute_joint_jacobian_local(&model, &[0.0, 0.0], 2);
    let expected = DMatrix::from_column_slice(6, 2, &[0.0, 0.0, 1.0, 0.0, 1.0, 0.0, 0.0, 0.0, 1.0, 0.0, 0.0, 0.0]);
    assert!((j - expected).norm() < 1e-12);
    let (q, v) = ([0.4, -0.9], [0.7, 0.3]);
    let body = fk::forward_kinematics_velocity(&Floats, &model, &to_reals(&q), &to_reals(&v)).v[2];
    let r = compute_joint_jacobian_local(&model, &q, 2) * DVector::from_column_slice(&v);
    let parts = [body.angular, body.linear].map(|p| [to_float(p.x), to_float(p.y), to_float(p.z)]).concat();
    assert!((r - DVector::from_vec(parts)).norm() < 1e-12);
}

#[test]
fn final_errors_are_those_of_the_result() {
    let model = cik_y_tree();
    let cm = ConstraintModel::from_constraints(vec![RigidConstraint::position(
        cik_frame_with_offset("left", 2, Vector3::new(0.0, 0.5, 0.0)),
        cik_frame_with_offset("right", 3, Vector3::new(0.0, 0.0, 0.5)),
    )]);
    let target = Vector3::new(0.3, 0.2, 0.4);
    for max_iters in [0, 1, 3] {
        let cfg = ConstrainedIkConfig { max_iters, tol_task: 0.0, tol_constraint: 0.0, ..Default::default() };
        let r = solve_task_with_constraints(&model, &[0.1, 0.5, -0.5], 2, target, &cm, &cfg);
        assert!(!r.converged);
        let e = compute_constraint_error(&model, &r.q, &cm).norm();
        assert!((r.constraint_error_norm - e).abs() < 1e-12);
        let p = se3_translation(&forward_kinematics(&model, &r.q).oMi[2]);
        assert!((r.task_error_norm - (target - p).norm()).abs() < 1e-12);
    }
}

#[test]
fn goals_met_by_the_last_step_count() {
    let model = cik_y_tree();
    let cm = ConstraintModel::from_constraints(vec![RigidConstraint::position(
        cik_frame_with_offset("left", 2, Vector3::new(0.0, 0.0, 0.5)),
        cik_frame_with_offset("right", 3, Vector3::new(0.0, 0.0, 0.5)),
    )]);
    let cfg = ConstrainedIkConfig { tol_constraint: 1e-3, ..Default::default() };
    let q0 = [0.1, 0.5, -0.5];
    let all = solve_constrained_ik(&model, &q0, &cm, &cfg);
    assert!(all.converged && all.iterations > 0 && all.iterations < cfg.max_iters);
    let few = ConstrainedIkConfig { max_iters: all.iterations, ..cfg };
    let r = solve_constrained_ik(&model, &q0, &cm, &few);
    assert!(r.converged);
    assert_eq!(r.iterations, all.iterations);
    assert_eq!(r.q, all.q);
    let fewer = ConstrainedIkConfig { max_iters: all.iterations - 1, ..few };
    let r = solve_constrained_ik(&model, &q0, &cm, &fewer);
    assert!(!r.converged && r.constraint_error_norm > 1e-3);
}

#[test]
fn plain_searches_tell_the_last_measured_error() {
    let model = ik_two_link_planar();
    let q0 = [0.1, -0.3];
    let target = Vector3::new(0.8, 0.6, 0.0);
    let error = |q: &[f64]| (target - se3_translation(&forward_kinematics(&model, q).oMi[2])).norm();
    let cfg = |max_iters: usize| IkConfig { max_iters, tol_error: 1e-8, ..IkConfig::default() };
    let none = solve_joint_position_ik(&model, &q0, 2, target, &cfg(0));
    assert_eq!(none.status, IkStatus::MaxIterations);
    assert_eq!(none.final_error_norm, f64::INFINITY);
    assert_eq!(none.q, q0);
    for n in 1..4 {
        let before = solve_joint_position_ik(&model, &q0, 2, target, &cfg(n - 1));
        let r = solve_joint_position_ik(&model, &q0, 2, target, &cfg(n));
        assert_eq!(r.status, IkStatus::MaxIterations);
        assert!((r.final_error_norm - error(&before.q)).abs() < 1e-12);
    }
    let all = solve_joint_position_ik(&model, &q0, 2, target, &cfg(200));
    assert_eq!(all.status, IkStatus::Converged);
    assert!(all.final_error_norm <= 1e-8 && (all.final_error_norm - error(&all.q)).abs() < 1e-12);
    let cc = CollisionConfig::default();
    let gm = GeometryModel::new();
    let none = solve_joint_position_ik_with_collision_avoidance(&model, &gm, &q0, 2, target, &cc, &cfg(0));
    assert_eq!(none.final_error_norm, 0.0);
    assert_eq!(none.status, IkStatus::MaxIterations);
}

#[test]
fn weightless_joints_are_divided_by() {
    let model = ik_two_link_planar();
    let qdd = aba(&model, &[0.1, -0.3], &[0.0, 0.0], &[1.0, 2.0]);
    assert!(qdd.iter().all(|x| !x.is_finite()));
}

#[test]
fn small_weights_stay_small() {
    let w = LibWeights::ee_proximal(&Floats, 4, &[0, 1, 2, 3], to_real(0.001));
    let w = to_floats(&w.weights);
    assert!((w[0] / 1e-9 - 1.0).abs() < 1e-9, "{}", w[0]);
    assert_eq!(w[3], 1.0);
}

#[test]
fn builders_begin_with_the_world() {
    let m = Builder::new().build();
    assert_eq!(m.joints.len(), 1);
    assert_eq!(m.joints[0].name, "universe");
    assert_eq!(m.link_names, vec!["universe".to_string()]);
    assert_eq!(to_float(m.inertias[0].mass), 0.0);
    assert_eq!([m.gravity.x, m.gravity.y, m.gravity.z].map(to_float), [0.0, 0.0, -9.81]);
}

#[test]
fn exchanged_frames_turn_the_signs() {
    let model = cik_dual_arm();
    let q = [0.2, -0.4, 0.7, 0.3, -0.6];
    let left = || cik_frame_with_offset("left", 3, Vector3::new(0.1, 0.2, -0.3));
    let right = || cik_frame_with_offset("right", 5, Vector3::new(0.0, -0.1, -0.2));
    let there = ConstraintModel::from_constraints(vec![
        RigidConstraint::position(left(), right()),
        RigidConstraint::pose(left(), cik_frame_at_joint("world", 0)),
    ]);
    let back = ConstraintModel::from_constraints(vec![
        RigidConstraint::position(right(), left()),
        RigidConstraint::pose(cik_frame_at_joint("world", 0), left()),
    ]);
    let a = compute_constraint_jacobian(&model, &q, &there);
    let b = compute_constraint_jacobian(&model, &q, &back);
    assert_eq!((a.nrows(), a.ncols()), (9, 5));
    assert!(a.norm() > 0.1);
    assert_eq!(a, -b);
}

#[test]
fn matrix_and_flag_list_the_same_collisions() {
    let model = jacobian_three_link_arm();
    let mut gm = GeometryModel::new();
    for (i, name) in ["base", "upper", "lower", "tip"].iter().enumerate() {
        gm.add(object(name, i, se3_identity(), GeometryShape::Sphere { radius: 0.9 }));
    }
    let acm = AllowedCollisionMatrix::from_adjacent_links(&model, &gm);
    let q = to_reals(&[0.3, 1.9, -0.4]);
    let with = collision::collision_pairs_acm(&Floats, &model, &gm, &q, Some(&acm));
    assert_eq!(with, collision::collision_pairs(&Floats, &model, &gm, &q, true));
    let without = collision::collision_pairs_acm(&Floats, &model, &gm, &q, None);
    assert_eq!(without, collision::collision_pairs(&Floats, &model, &gm, &q, false));
    assert!(with.len() < without.len());
}
