//! Numbers, text, heaps and tables.

use misarta::collapse::edge_key;
use misarta::collision::AllowedCollisionMatrix;
use misarta::dae_mesh::{
    build_triangles_from_p, build_triangles_from_polylist, fix_up_axis, read_points,
    read_texture_points, read_vectors,
};
use misarta::decompose::{
    percentage, phase_label, test_corners, PHASE_BUILDING, PHASE_DECOMPOSING, PHASE_DONE,
    PHASE_HULLS, PHASE_NOT_STARTED, PHASE_PREPARING,
};
use misarta::decimate::DecimationMethod;
use misarta::decompose::DecompositionMethod;
use misarta::constraint::{ConstrainedIkConfig, QpIkConfig};
use misarta::decompose::VhacdParams;
use misarta::heap::{CollapseCandidate, CollapseQueue};
use misarta::ik::IkConfig;
use misarta::ik_differential::DiffIkConfig;
use misarta::ik_nullspace::CollisionConfig;
use misarta::ik_solver::{Damping, SolverMethod};
use misarta::interner::Interner;
use misarta::matrix::{from_columns, Matrix};
use misarta::number::{Point3, Real};
use misarta::sphere_tree::SphereTreeParams;
use misarta::text::{
    chars_of, decimal, matches_lowered, parse_unsigned, same_text, split_words, strip_hashes,
    text_of, trim,
};
use misarta::xml::{find_below, find_child, test_under, XmlAttribute, XmlNode};

fn to_real(x: f64) -> Real {
    Real { bits: x.to_bits() }
}

fn to_float(x: Real) -> f64 {
    f64::from_bits(x.bits)
}

const SAMPLES: [f64; 13] = [
    f64::NEG_INFINITY,
    -1.5e300,
    -2.0,
    -1.0,
    -1e-310,
    -0.0,
    0.0,
    1e-310,
    0.5,
    1.0,
    3.25,
    f64::INFINITY,
    f64::NAN,
];

#[test]
fn numbers_compare_like_doubles() {
    for x in SAMPLES {
        for y in SAMPLES {
            let (a, b) = (to_real(x), to_real(y));
            assert_eq!(a.lt(b), x < y, "{x} {y}");
            assert_eq!(a.le(b), x <= y, "{x} {y}");
            assert_eq!(a.equals(b), x == y, "{x} {y}");
            let (m, n) = (to_float(a.max(b)), x.max(y));
            assert!(m == n || (m.is_nan() && n.is_nan()), "{x} {y}");
            let (m, n) = (to_float(a.min(b)), x.min(y));
            assert!(m == n || (m.is_nan() && n.is_nan()), "{x} {y}");
        }
        let a = to_real(x);
        assert_eq!(a.is_nan(), x.is_nan());
        assert_eq!(a.is_finite(), x.is_finite());
        assert_eq!(a.is_infinite(), x.is_infinite());
        assert_eq!(a.neg().bits, (-x).to_bits());
        assert_eq!(a.abs().bits, x.abs().to_bits());
    }
}

#[test]
fn clamping_moves_into_the_range() {
    let (lo, hi) = (to_real(-1.0), to_real(2.0));
    assert_eq!(to_float(to_real(-7.0).clamp(lo, hi)), -1.0);
    assert_eq!(to_float(to_real(7.0).clamp(lo, hi)), 2.0);
    assert_eq!(to_float(to_real(0.5).clamp(lo, hi)), 0.5);
    assert!(to_float(to_real(f64::NAN).clamp(lo, hi)).is_nan());
}

#[test]
fn constants_have_their_bits() {
    assert_eq!(to_float(Real::zero()), 0.0);
    assert_eq!(to_float(Real::one()), 1.0);
    assert_eq!(to_float(Real::infinity()), f64::INFINITY);
    assert_eq!(to_float(Real { bits: misarta::numerics::TINY_LENGTH }), 1e-30);
    assert_eq!(to_float(Real { bits: misarta::primitive::LARGEST }), f64::MAX);
    assert_eq!(to_float(Real { bits: misarta::primitive::PI }), std::f64::consts::PI);
    assert_eq!(
        to_float(Real { bits: misarta::primitive::FOUR_THIRDS_PI }),
        (4.0 / 3.0) * std::f64::consts::PI
    );
    assert_eq!(to_float(Real { bits: misarta::primitive::THIN }), 1e-15);
    assert_eq!(to_float(Real { bits: misarta::primitive::VANISHING }), 1e-20);
    assert_eq!(to_float(Real { bits: misarta::primitive::EIGHT }), 8.0);
    assert_eq!(to_float(Real { bits: misarta::primitive::TWO }), 2.0);
    assert_eq!(to_float(Real { bits: misarta::primitive::SIX }), 6.0);
    assert_eq!(to_float(Real { bits: misarta::config::IDENTITY_TOLERANCE }), 1e-12);
    assert_eq!(to_float(Real { bits: misarta::model::STANDARD_GRAVITY }), -9.81);
    assert_eq!(to_float(Real { bits: misarta::collision::HALF_PI }), std::f64::consts::FRAC_PI_2);
}

#[test]
fn settings_have_their_defaults() {
    let c = IkConfig::default();
    assert_eq!(c.max_iters, 100);
    assert_eq!(to_float(c.tol_error), 1e-6);
    assert_eq!(to_float(c.tol_step), 1e-8);
    assert_eq!(to_float(c.step_size), 1.0);
    assert!(matches!(c.damping, Damping::Fixed(x) if to_float(x) == 1e-2));
    assert_eq!(c.solver_method, SolverMethod::DampedLeastSquares);
    assert_eq!(SolverMethod::default(), SolverMethod::DampedLeastSquares);
    let c = CollisionConfig::default();
    assert_eq!(to_float(c.safety_margin), 0.05);
    assert_eq!(to_float(c.collision_weight), 1.0);
    assert_eq!(to_float(c.fd_eps), 1e-4);
    assert!(c.acm.is_none());
    let c = DiffIkConfig::default();
    assert_eq!(to_float(c.gain), 0.3);
    assert_eq!(to_float(c.max_joint_step), 0.15);
    assert!(matches!(c.damping, Damping::Fixed(x) if to_float(x) == 0.05));
    let c = ConstrainedIkConfig::default();
    assert_eq!(c.max_iters, 200);
    assert_eq!(to_float(c.tol_constraint), 1e-6);
    assert_eq!(to_float(c.tol_task), 1e-6);
    assert_eq!(to_float(c.step_size), 0.5);
    assert_eq!(to_float(c.damping), 1e-3);
    assert_eq!(to_float(c.constraint_weight), 10.0);
    let c = QpIkConfig::default();
    assert_eq!((c.max_iters, c.qp_max_iters), (200, 200));
    assert_eq!(to_float(c.step_size), 0.5);
    assert_eq!(to_float(c.damping), 1e-3);
    assert!(c.max_step.is_none());
    let p = VhacdParams::default();
    assert_eq!((p.max_hulls, p.resolution), (16, 64));
    assert_eq!(to_float(p.concavity), 0.01);
    let p = SphereTreeParams::default();
    assert_eq!((p.max_spheres, p.max_depth, p.min_triangles), (16, 5, 4));
}

#[test]
fn tolerances_have_their_bits() {
    assert_eq!(to_float(Real { bits: misarta::analysis::NEGLIGIBLE }), 1e-12);
    assert_eq!(to_float(Real { bits: misarta::coriolis::STEP }), 1e-8);
    assert_eq!(to_float(Real { bits: misarta::coriolis::TWO_STEPS }), 2.0 * 1e-8);
    assert_eq!(to_float(Real { bits: misarta::coriolis::HALF }), 0.5);
    assert_eq!(to_float(Real { bits: misarta::jacobian::EPSILON }), 1e-6);
    assert_eq!(to_float(Real { bits: misarta::jacobian::TWO_EPSILON }), 2.0 * 1e-6);
    assert_eq!(to_float(Real { bits: misarta::dae_read::FOUR_FIFTHS }), 0.8);
    assert_eq!(to_float(Real { bits: misarta::ik_solver::SMALL }), 1e-12);
    assert_eq!(to_float(Real { bits: misarta::ik_solver::TINY }), 1e-30);
    assert_eq!(to_float(Real { bits: misarta::ik_solver::SMALL_GAIN }), 1e-3);
    assert_eq!(to_float(Real { bits: misarta::constraint::qp_ik::MINUS_ONE }), -1.0);
}

#[test]
fn decimal_text_reads_back() {
    for n in [0, 7, 10, 99, 100, 1234567890, usize::MAX] {
        let t = decimal(n);
        assert_eq!(t, n.to_string());
        assert_eq!(parse_unsigned(&t), Some(n));
    }
    assert_eq!(parse_unsigned("+12"), Some(12));
    assert_eq!(parse_unsigned("007"), Some(7));
    assert_eq!(parse_unsigned(""), None);
    assert_eq!(parse_unsigned("-1"), None);
    assert_eq!(parse_unsigned("1x"), None);
    assert_eq!(parse_unsigned("99999999999999999999999"), None);
}

#[test]
fn text_is_split_and_trimmed() {
    assert_eq!(split_words("  a\tbc \n d "), vec!["a", "bc", "d"]);
    assert!(split_words(" \n ").is_empty());
    assert_eq!(trim(" \u{3000}x y\u{a0}"), "x y");
    assert_eq!(trim(""), "");
    assert_eq!(strip_hashes("##mesh#1"), "mesh#1");
    assert_eq!(strip_hashes("mesh"), "mesh");
    assert!(matches_lowered("V-HaCd", "v-hacd"));
    assert!(!matches_lowered("vhac", "vhacd"));
    assert!(same_text("ä", "ä"));
    assert!(!same_text("a", "A"));
    let chars = chars_of("aäz");
    assert_eq!(chars, vec!['a', 'ä', 'z']);
    assert_eq!(text_of(&chars, 1, 3), "äz");
}

#[test]
fn edges_have_the_smaller_end_first() {
    assert_eq!(edge_key(3, 1), (1, 3));
    assert_eq!(edge_key(1, 3), (1, 3));
    assert_eq!(edge_key(2, 2), (2, 2));
}

#[test]
fn cheapest_collapse_comes_first() {
    let mut q = CollapseQueue::new();
    for (i, cost) in [3.0, 0.5, f64::NAN, 2.0, -1.0, 0.5].iter().enumerate() {
        q.push(CollapseCandidate {
            cost: to_real(*cost),
            v_a: i as u32,
            v_b: i as u32 + 1,
            target: Point3::origin(),
            generation: 0,
        });
    }
    let mut costs: Vec<f64> = Vec::new();
    while let Some(c) = q.pop() {
        costs.push(to_float(c.cost));
    }
    assert_eq!(&costs[..5], &[-1.0, 0.5, 0.5, 2.0, 3.0]);
    assert!(costs[5].is_nan());
    assert!(q.pop().is_none());
}

#[test]
fn equal_triples_share_a_number() {
    let mut t = Interner::new(4);
    assert_eq!(t.intern((1, 2, 3)), 0);
    assert_eq!(t.intern((3, 2, 1)), 1);
    assert_eq!(t.intern((1, 2, 3)), 0);
    assert_eq!(t.len(), 2);
    assert_eq!(t.key(1), (3, 2, 1));
}

#[test]
fn allowed_pairs_have_no_order() {
    let mut m = AllowedCollisionMatrix::new();
    assert!(!m.is_allowed(1, 2));
    m.allow(2, 1);
    assert!(m.is_allowed(1, 2));
    assert!(m.is_allowed(2, 1));
    assert!(!m.is_allowed(1, 3));
    m.disallow(1, 2);
    assert!(!m.is_allowed(2, 1));
}

#[test]
fn phases_have_labels() {
    assert_eq!(phase_label(PHASE_NOT_STARTED), "Waiting…");
    assert_eq!(phase_label(PHASE_PREPARING), "Preparing data…");
    assert_eq!(phase_label(PHASE_DECOMPOSING), "Decomposing (V-HACD voxelization)…");
    assert_eq!(phase_label(PHASE_HULLS), "Computing convex hulls…");
    assert_eq!(phase_label(PHASE_BUILDING), "Building output meshes…");
    assert_eq!(phase_label(PHASE_DONE), "Done");
    assert_eq!(phase_label(200), "Processing…");
}

#[test]
fn percentages_are_rounded_down() {
    assert_eq!(percentage(0, 3), 0);
    assert_eq!(percentage(1, 3), 33);
    assert_eq!(percentage(2, 3), 66);
    assert_eq!(percentage(199, 200), 99);
}

#[test]
fn methods_have_descriptions() {
    assert_eq!(DecimationMethod::ALL.len(), 3);
    assert_eq!(DecimationMethod::Qem.label(), "QEM");
    assert_eq!(DecimationMethod::EdgeLength.label(), "Edge Length");
    assert_eq!(DecimationMethod::VertexClustering.label(), "Vertex Clustering");
    assert_eq!(
        DecimationMethod::EdgeLength.description(),
        "Good quality — collapses shortest edges first (fast)"
    );
    assert_eq!(DecompositionMethod::ALL.len(), 3);
    for m in DecompositionMethod::ALL {
        assert!(!m.description().is_empty());
    }
}

#[test]
fn corners_have_to_exist() {
    assert!(test_corners(&vec![[0, 1, 2]], 3));
    assert!(!test_corners(&vec![[0, 1, 3]], 3));
    assert!(test_corners(&Vec::new(), 0));
}

#[test]
fn axes_are_turned_upright() {
    let (x, y, z) = (to_real(1.0), to_real(2.0), to_real(3.0));
    let at = |up: &str| {
        let p = fix_up_axis(x, y, z, up);
        (to_float(p.x), to_float(p.y), to_float(p.z))
    };
    assert_eq!(at("Z_UP"), (1.0, 2.0, 3.0));
    assert_eq!(at("X_UP"), (2.0, 3.0, 1.0));
    assert_eq!(at("Y_UP"), (1.0, 3.0, -2.0));
}

#[test]
fn incomplete_points_are_dropped() {
    let data: Vec<Real> = [1.0, 2.0, 3.0, 4.0, 5.0].iter().map(|x| to_real(*x)).collect();
    assert_eq!(read_points(&data, "Z_UP").len(), 1);
    assert_eq!(read_vectors(&data, "Z_UP").len(), 1);
    let uv = read_texture_points(&data);
    assert_eq!(uv.len(), 2);
    assert_eq!(to_float(uv[1].y), 4.0);
}

#[test]
fn corners_are_read_by_their_offsets() {
    let p = vec![0, 9, 1, 8, 2, 7];
    let t = build_triangles_from_p(&p, 2, Some(0), Some(1), None);
    assert_eq!(t.len(), 1);
    assert_eq!(t[0][0], 0);
    assert_eq!(t[0][1], 9);
    assert_eq!(t[0][3], 1);
    assert_eq!(t[0][4], 8);
    assert!(build_triangles_from_p(&vec![0, 1], 1, Some(0), None, None).is_empty());
}

#[test]
fn polygons_become_fans() {
    let p = vec![5, 6, 7, 8, 1, 2, 3];
    let t = build_triangles_from_polylist(&p, &vec![4, 3], 1, Some(0), None, None);
    let corners: Vec<[usize; 3]> = t.iter().map(|c| [c[0], c[3], c[6]]).collect();
    assert_eq!(corners, vec![[5, 6, 7], [5, 7, 8], [1, 2, 3]]);
}

fn element(tag: &str, parent: Option<usize>) -> XmlNode {
    XmlNode { tag: tag.to_string(), parent, attributes: Vec::new(), text: None }
}

#[test]
fn elements_are_found() {
    let mut nodes = vec![
        element("", None),
        element("a", Some(0)),
        element("b", Some(1)),
        element("c", Some(2)),
        element("c", Some(1)),
    ];
    nodes[2].attributes.push(XmlAttribute {
        namespace: None,
        name: "id".to_string(),
        value: "x".to_string(),
    });
    assert_eq!(find_child(&nodes, 1, "c"), Some(4));
    assert_eq!(find_below(&nodes, 1, "c"), Some(3));
    assert_eq!(find_child(&nodes, 0, "b"), None);
    assert!(test_under(&nodes, 1, 3));
    assert!(!test_under(&nodes, 3, 1));
    assert_eq!(nodes[2].attribute("id"), Some("x".to_string()));
    assert_eq!(nodes[2].attribute("name"), None);
    assert_eq!(nodes[2].attribute_or_empty("name"), "");
    assert!(nodes[2].is("b"));
}

#[test]
fn matrices_are_stacked() {
    let one = |x: f64| vec![to_real(x), to_real(2.0 * x)];
    let mut m = from_columns(&vec![one(1.0), one(5.0), one(7.0)], 2);
    assert_eq!(m.cols, 3);
    assert_eq!(to_float(m.get(1, 2)), 14.0);
    m.set(0, 0, to_real(-1.0));
    assert_eq!(m.copy_column(0).iter().map(|x| to_float(*x)).collect::<Vec<_>>(), vec![-1.0, 2.0]);
    let mut top = Matrix::zeros(1, 3);
    top.append_rows(&m.copy());
    assert_eq!(top.rows.len(), 3);
    assert_eq!(to_float(top.get(1, 0)), -1.0);
}
