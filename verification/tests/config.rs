//! Configuration files.

use misarta::config::{
    default_actuator_kp, default_actuator_kv, default_cycle_period, default_duration,
    default_duty_factor, default_far, default_fl_foot, default_four_support_fraction, default_fov,
    default_fr_foot, default_height, default_identity_quat, default_lidar_h_fov,
    default_lidar_h_samples, default_lidar_range_max, default_lidar_range_min,
    default_lidar_v_samples, default_max_step, default_near, default_one, default_pair_enabled,
    default_quat, default_rl_foot, default_rr_foot, default_step_duration, default_swing_height,
    default_width, default_zero3, is_identity_quat, ActuatorMode, CollisionPairConfig,
    ConfigFormat, GaitConfigEntry, GaitTypeConfig, HomeConfig, InterpolationKind, MisartaConfig,
    MisartaHeader, SequenceConfig,
    CURRENT_VERSION,
};
use misarta::number::{Real, Vector3};
use misarta::spatial::{Inertia, LinkInertia, Motion, Placement, SpatialMath};
use std::path::{Path, PathBuf};

/// Sums and differences only.
struct Sums;

fn to_real(x: f64) -> Real {
    Real { bits: x.to_bits() }
}

fn to_float(x: Real) -> f64 {
    f64::from_bits(x.bits)
}

impl SpatialMath for Sums {
    fn sum(&self, a: Real, b: Real) -> Real {
        to_real(to_float(a) + to_float(b))
    }
    fn difference(&self, a: Real, b: Real) -> Real {
        to_real(to_float(a) - to_float(b))
    }
    fn product(&self, a: Real, b: Real) -> Real {
        to_real(to_float(a) * to_float(b))
    }
    fn quotient(&self, a: Real, b: Real) -> Real {
        to_real(to_float(a) / to_float(b))
    }
    fn compose(&self, _: Placement, _: Placement) -> Placement {
        panic!("not used")
    }
    fn rotation(&self, _: Vector3, _: Real) -> Placement {
        panic!("not used")
    }
    fn translation(&self, _: Vector3, _: Real) -> Placement {
        panic!("not used")
    }
    fn free(&self, _: Vector3, _: Real, _: Real, _: Real, _: Real) -> Placement {
        panic!("not used")
    }
    fn motion_sum(&self, _: Motion, _: Motion) -> Motion {
        panic!("not used")
    }
    fn motion_difference(&self, _: Motion, _: Motion) -> Motion {
        panic!("not used")
    }
    fn motion_add_scaled(&self, _: Motion, _: Motion, _: Real) -> Motion {
        panic!("not used")
    }
    fn motion_quotient(&self, _: Motion, _: Real) -> Motion {
        panic!("not used")
    }
    fn dot3(&self, _: Vector3, _: Vector3) -> Real {
        panic!("not used")
    }
    fn motion_to_child(&self, _: Placement, _: Motion) -> Motion {
        panic!("not used")
    }
    fn force_to_parent(&self, _: Placement, _: Motion) -> Motion {
        panic!("not used")
    }
    fn motion_cross(&self, _: Motion, _: Motion) -> Motion {
        panic!("not used")
    }
    fn force_cross(&self, _: Motion, _: Motion) -> Motion {
        panic!("not used")
    }
    fn dot(&self, _: Motion, _: Motion) -> Real {
        panic!("not used")
    }
    fn body_inertia(&self, _: LinkInertia) -> Inertia {
        panic!("not used")
    }
    fn inertia_sum(&self, _: Inertia, _: Inertia) -> Inertia {
        panic!("not used")
    }
    fn inertia_to_parent(&self, _: Placement, _: Inertia) -> Inertia {
        panic!("not used")
    }
    fn inertia_times(&self, _: Inertia, _: Motion) -> Motion {
        panic!("not used")
    }
    fn solve(&self, _: &Vec<Vec<Real>>, _: &Vec<Real>) -> [Real; 6] {
        panic!("not used")
    }
    fn jacobian_column(&self, _: Placement, _: Motion, _: Vector3) -> Motion {
        panic!("not used")
    }
}

/// Texts with nothing but a version.
struct Versions;

impl ConfigFormat for Versions {
    fn parse(&self, text: &str) -> Result<MisartaConfig, String> {
        let t = text.parse::<toml::Table>().map_err(|e| e.to_string())?;
        let mut c = MisartaConfig::new();
        let version = t["misarta"]["version"].as_integer().expect("a version");
        c.misarta = MisartaHeader { version: version as u32 };
        Ok(c)
    }

    fn print(&self, config: &MisartaConfig) -> Result<String, String> {
        if config.is_empty() {
            Ok(format!("[misarta]\nversion = {}\n", config.misarta.version))
        } else {
            Err("entries".to_string())
        }
    }

    fn stem(&self, path: &str) -> String {
        Path::new(path).file_stem().unwrap_or_default().to_string_lossy().into_owned()
    }

    fn with_name(&self, path: &str, name: &str) -> String {
        Path::new(path).with_file_name(name).to_string_lossy().into_owned()
    }
}

fn from_toml(text: &str) -> Result<MisartaConfig, String> {
    MisartaConfig::from_toml(&Versions, text)
}

fn config_path_for(model: &str) -> PathBuf {
    PathBuf::from(MisartaConfig::config_path_for(&Versions, model))
}

#[test]
fn parse_minimal_toml() {
    let text = r#"
[misarta]
version = 1
"#;
    let config = from_toml(text).unwrap();
    assert!(config.loop_closure.is_empty());
}

#[test]
fn parse_minimal_toml_has_empty_actuators() {
    let text = r#"
[misarta]
version = 1
"#;
    let config = from_toml(text).unwrap();
    assert!(config.actuator.is_empty());
}

#[test]
fn reject_future_version() {
    let text = r#"
[misarta]
version = 999
"#;
    let err = from_toml(text).unwrap_err();
    assert!(err.contains("Unsupported"), "{}", err);
    assert_eq!(err, "Unsupported misarta config version 999 (max supported: 1)");
}

#[test]
fn config_path_for_urdf() {
    let p = config_path_for("/home/user/robot.urdf");
    assert_eq!(p.to_str().unwrap(), "/home/user/robot.misarta.toml");
}

#[test]
fn config_path_for_sdf() {
    let p = config_path_for("models/four_bar.sdf");
    assert_eq!(p.to_str().unwrap(), "models/four_bar.misarta.toml");
}

#[test]
fn texts_are_refused_both_ways() {
    assert!(from_toml("[misarta").unwrap_err().starts_with("Failed to parse misarta TOML: "));
    let mut c = MisartaConfig::new();
    c.sequence.push(SequenceConfig { name: "jump".to_string(), steps: Vec::new() });
    let err = c.to_toml(&Versions).unwrap_err();
    assert_eq!(err, "Failed to serialize misarta TOML: entries");
}

#[test]
fn failures_are_told() {
    let err = MisartaConfig::from_parsed(Err("no header".to_string())).unwrap_err();
    assert_eq!(err, "Failed to parse misarta TOML: no header");
    let err = MisartaConfig::from_serialized(Err("too deep".to_string())).unwrap_err();
    assert_eq!(err, "Failed to serialize misarta TOML: too deep");
    let text = MisartaConfig::from_serialized(Ok("[misarta]".to_string())).unwrap();
    assert_eq!(text, "[misarta]");
}

#[test]
fn versions_up_to_the_current_one_are_accepted() {
    for version in 0..=CURRENT_VERSION {
        let mut c = MisartaConfig::new();
        c.misarta.version = version;
        let accepted = MisartaConfig::from_parsed(Ok(c)).unwrap();
        assert_eq!(accepted.misarta.version, version);
        let again = MisartaConfig::from_parsed(Ok(accepted)).unwrap();
        assert_eq!(again.misarta.version, version);
    }
}

#[test]
fn fresh_configuration_is_empty() {
    let c = MisartaConfig::default();
    assert_eq!(c.misarta.version, CURRENT_VERSION);
    assert!(c.is_empty());
    assert!(c.home.is_empty());
    assert!(c.gait.is_empty());
    assert!(MisartaConfig::from_parsed(Ok(c)).is_ok());
}

#[test]
fn entries_make_a_configuration_full() {
    let mut c = MisartaConfig::new();
    c.gait.push(GaitConfigEntry::default());
    assert!(!c.is_empty());
    c = MisartaConfig::new();
    c.home.base_position[0] = to_real(0.5);
    assert!(!c.is_empty());
    c.home = HomeConfig::default();
    assert!(c.is_empty());
    c.collision_pair.push(CollisionPairConfig {
        link_a: "trunk".to_string(),
        link_b: "FL_thigh".to_string(),
        enabled: default_pair_enabled(),
    });
    assert!(!c.is_empty());
}

#[test]
fn home_is_empty_up_to_the_sign_of_zero() {
    let mut h = HomeConfig::default();
    assert!(h.is_empty());
    h.base_position[1] = to_real(-0.0);
    assert!(h.is_empty());
    h.base_orientation[3] = to_real(-1.0);
    assert!(!h.is_empty());
    h.base_orientation[3] = to_real(1.0);
    h.base_position[2] = to_real(f64::NAN);
    assert!(!h.is_empty());
    h.base_position[2] = to_real(0.0);
    h.joint_positions.push(("hip".to_string(), to_real(0.0)));
    assert!(!h.is_empty());
}

#[test]
fn identity_quaternions_are_recognised() {
    assert!(is_identity_quat(&Sums, &default_quat()));
    let mut q = default_quat();
    q[3] = to_real(-1.0);
    assert!(is_identity_quat(&Sums, &q));
    q[3] = to_real(1.0 + 1e-13);
    assert!(is_identity_quat(&Sums, &q));
    q[3] = to_real(0.5);
    assert!(!is_identity_quat(&Sums, &q));
    let mut q = default_quat();
    q[1] = to_real(-1e-11);
    assert!(!is_identity_quat(&Sums, &q));
}

#[test]
fn defaults_have_their_values() {
    assert_eq!(to_float(default_duration()), 1.0);
    assert_eq!(to_float(default_step_duration()), 1.0);
    assert_eq!(to_float(default_one()), 1.0);
    assert_eq!(to_float(default_actuator_kp()), 50.0);
    assert_eq!(to_float(default_actuator_kv()), 5.0);
    assert_eq!(to_float(default_fov()), std::f64::consts::FRAC_PI_3);
    assert_eq!(default_width(), 640);
    assert_eq!(default_height(), 480);
    assert_eq!(to_float(default_near()), 0.05);
    assert_eq!(to_float(default_far()), 100.0);
    assert_eq!(to_float(default_lidar_range_min()), 0.05);
    assert_eq!(to_float(default_lidar_range_max()), 30.0);
    assert_eq!(to_float(default_lidar_h_fov()), std::f64::consts::TAU);
    assert_eq!(default_lidar_h_samples(), 360);
    assert_eq!(default_lidar_v_samples(), 1);
    assert_eq!(to_float(default_cycle_period()), 0.4);
    assert_eq!(to_float(default_duty_factor()), 0.5);
    assert_eq!(to_float(default_swing_height()), 0.04);
    assert_eq!(to_float(default_max_step()), 0.10);
    assert_eq!(to_float(default_four_support_fraction()), 0.5);
    assert_eq!(default_fl_foot(), "FL_foot");
    assert_eq!(default_fr_foot(), "FR_foot");
    assert_eq!(default_rl_foot(), "RL_foot");
    assert_eq!(default_rr_foot(), "RR_foot");
    assert_eq!(default_zero3().map(to_float), [0.0, 0.0, 0.0]);
    assert_eq!(default_identity_quat().map(to_float), [0.0, 0.0, 0.0, 1.0]);
    assert_eq!(InterpolationKind::default(), InterpolationKind::QuinticSmooth);
    assert_eq!(ActuatorMode::default(), ActuatorMode::Position);
    assert_eq!(GaitTypeConfig::default(), GaitTypeConfig::Trot);
}

#[test]
fn default_gait_is_a_trot() {
    let g = GaitConfigEntry::default();
    assert_eq!(g.name, "default");
    assert_eq!(g.gait_type, GaitTypeConfig::Trot);
    assert_eq!(g.knee_forward, [false; 4]);
    assert_eq!(g.rr_foot, "RR_foot");
}
