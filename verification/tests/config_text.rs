//! Configurations written as text and read again.

use misarta::config::{
    default_quat, ActuatorConfig, ActuatorMode, CollisionPairConfig, ConfigFormat, GaitConfigEntry,
    GaitTypeConfig, HomeConfig, InterpolationKind, LoopClosureConfig, MimicConfig, MisartaConfig,
    MisartaHeader, PoseConfig, SensorConfig, SensorKind, SequenceConfig, SequenceStepConfig,
    CURRENT_VERSION,
};
use misarta::number::Real;
use toml::{Table, Value};

fn r(x: f64) -> Real {
    Real { bits: x.to_bits() }
}

fn f(x: Real) -> f64 {
    f64::from_bits(x.bits)
}

fn text(s: &str) -> Value {
    Value::String(s.to_string())
}

fn num(x: Real) -> Value {
    Value::Float(f(x))
}

fn nums(xs: &[Real]) -> Value {
    Value::Array(xs.iter().map(|x| num(*x)).collect())
}

fn table(rows: Vec<(&str, Value)>) -> Value {
    Value::Table(rows.into_iter().map(|(k, v)| (k.to_string(), v)).collect())
}

fn array<T>(items: &[T], each: impl Fn(&T) -> Value) -> Value {
    Value::Array(items.iter().map(each).collect())
}

fn named(rows: &[(String, Real)]) -> Value {
    Value::Table(rows.iter().map(|(k, v)| (k.clone(), num(*v))).collect())
}

fn read_text(v: &Value, key: &str) -> Result<String, String> {
    match v.get(key).and_then(|x| x.as_str()) {
        Some(s) => Ok(s.to_string()),
        None => Err(format!("no text {}", key)),
    }
}

fn read_num(v: &Value, key: &str) -> Result<Real, String> {
    v.get(key).and_then(|x| x.as_float()).map(r).ok_or(format!("no number {}", key))
}

fn read_count(v: &Value, key: &str) -> Result<u32, String> {
    v.get(key).and_then(|x| x.as_integer()).map(|x| x as u32).ok_or(format!("no count {}", key))
}

fn read_flag(v: &Value, key: &str) -> Result<bool, String> {
    v.get(key).and_then(|x| x.as_bool()).ok_or(format!("no flag {}", key))
}

fn read_nums<const N: usize>(v: &Value, key: &str) -> Result<[Real; N], String> {
    let items = v.get(key).and_then(|x| x.as_array()).ok_or(format!("no numbers {}", key))?;
    let reals: Vec<Real> = items.iter().filter_map(|x| x.as_float()).map(r).collect();
    reals.try_into().map_err(|_| format!("numbers {}", key))
}

fn read_items<T>(
    v: &Value,
    key: &str,
    each: impl Fn(&Value) -> Result<T, String>,
) -> Result<Vec<T>, String> {
    match v.get(key).and_then(|x| x.as_array()) {
        Some(items) => items.iter().map(each).collect(),
        None => Ok(Vec::new()),
    }
}

fn read_named(v: &Value, key: &str) -> Result<Vec<(String, Real)>, String> {
    let rows = v.get(key).and_then(|x| x.as_table()).ok_or(format!("no table {}", key))?;
    Ok(rows.iter().map(|(k, x)| (k.clone(), r(x.as_float().unwrap_or(0.0)))).collect())
}

fn write_curve(k: InterpolationKind) -> Value {
    text(match k {
        InterpolationKind::Linear => "Linear",
        InterpolationKind::QuinticSmooth => "QuinticSmooth",
    })
}

fn read_curve(v: &Value) -> Result<InterpolationKind, String> {
    match read_text(v, "kind")?.as_str() {
        "Linear" => Ok(InterpolationKind::Linear),
        "QuinticSmooth" => Ok(InterpolationKind::QuinticSmooth),
        other => Err(format!("unknown variant {}", other)),
    }
}

fn write_mode(m: ActuatorMode) -> Value {
    text(match m {
        ActuatorMode::Position => "Position",
        ActuatorMode::Velocity => "Velocity",
        ActuatorMode::Torque => "Torque",
        ActuatorMode::ComputedTorque => "ComputedTorque",
        ActuatorMode::Fixed => "Fixed",
    })
}

fn read_mode(v: &Value) -> Result<ActuatorMode, String> {
    match read_text(v, "mode")?.as_str() {
        "Position" => Ok(ActuatorMode::Position),
        "Velocity" => Ok(ActuatorMode::Velocity),
        "Torque" => Ok(ActuatorMode::Torque),
        "ComputedTorque" => Ok(ActuatorMode::ComputedTorque),
        "Fixed" => Ok(ActuatorMode::Fixed),
        other => Err(format!("unknown variant {}", other)),
    }
}

fn write_gait_type(g: GaitTypeConfig) -> Value {
    text(match g {
        GaitTypeConfig::Trot => "Trot",
        GaitTypeConfig::Walk => "Walk",
        GaitTypeConfig::Pace => "Pace",
        GaitTypeConfig::Bound => "Bound",
        GaitTypeConfig::Crawl => "Crawl",
    })
}

fn read_gait_type(v: &Value) -> Result<GaitTypeConfig, String> {
    match read_text(v, "gait_type")?.as_str() {
        "Trot" => Ok(GaitTypeConfig::Trot),
        "Walk" => Ok(GaitTypeConfig::Walk),
        "Pace" => Ok(GaitTypeConfig::Pace),
        "Bound" => Ok(GaitTypeConfig::Bound),
        "Crawl" => Ok(GaitTypeConfig::Crawl),
        other => Err(format!("unknown variant {}", other)),
    }
}

fn write_loop(c: &LoopClosureConfig) -> Value {
    table(vec![
        ("name", text(&c.name)),
        ("link_a", text(&c.link_a)),
        ("offset_a", nums(&c.offset_a)),
        ("rot_a", nums(&c.rot_a)),
        ("link_b", text(&c.link_b)),
        ("offset_b", nums(&c.offset_b)),
        ("rot_b", nums(&c.rot_b)),
        ("pose_6dof", Value::Boolean(c.pose_6dof)),
    ])
}

fn read_loop(v: &Value) -> Result<LoopClosureConfig, String> {
    Ok(LoopClosureConfig {
        name: read_text(v, "name")?,
        link_a: read_text(v, "link_a")?,
        offset_a: read_nums(v, "offset_a")?,
        rot_a: read_nums(v, "rot_a")?,
        link_b: read_text(v, "link_b")?,
        offset_b: read_nums(v, "offset_b")?,
        rot_b: read_nums(v, "rot_b")?,
        pose_6dof: read_flag(v, "pose_6dof")?,
    })
}

fn write_pose(c: &PoseConfig) -> Value {
    table(vec![
        ("name", text(&c.name)),
        ("angles", named(&c.angles)),
        ("duration", num(c.duration)),
        ("kind", write_curve(c.kind)),
    ])
}

fn read_pose(v: &Value) -> Result<PoseConfig, String> {
    Ok(PoseConfig {
        name: read_text(v, "name")?,
        angles: read_named(v, "angles")?,
        duration: read_num(v, "duration")?,
        kind: read_curve(v)?,
    })
}

fn write_actuator(c: &ActuatorConfig) -> Value {
    table(vec![
        ("joint_name", text(&c.joint_name)),
        ("mode", write_mode(c.mode)),
        ("kp", num(c.kp)),
        ("kv", num(c.kv)),
        ("armature", num(c.armature)),
        ("joint_damping", num(c.joint_damping)),
    ])
}

fn read_actuator(v: &Value) -> Result<ActuatorConfig, String> {
    Ok(ActuatorConfig {
        joint_name: read_text(v, "joint_name")?,
        mode: read_mode(v)?,
        kp: read_num(v, "kp")?,
        kv: read_num(v, "kv")?,
        armature: read_num(v, "armature")?,
        joint_damping: read_num(v, "joint_damping")?,
    })
}

fn write_pair(c: &CollisionPairConfig) -> Value {
    table(vec![
        ("link_a", text(&c.link_a)),
        ("link_b", text(&c.link_b)),
        ("enabled", Value::Boolean(c.enabled)),
    ])
}

fn read_pair(v: &Value) -> Result<CollisionPairConfig, String> {
    Ok(CollisionPairConfig {
        link_a: read_text(v, "link_a")?,
        link_b: read_text(v, "link_b")?,
        enabled: read_flag(v, "enabled")?,
    })
}

fn write_step(c: &SequenceStepConfig) -> Value {
    table(vec![
        ("pose_name", text(&c.pose_name)),
        ("duration", num(c.duration)),
        ("kind", write_curve(c.kind)),
    ])
}

fn read_step(v: &Value) -> Result<SequenceStepConfig, String> {
    Ok(SequenceStepConfig {
        pose_name: read_text(v, "pose_name")?,
        duration: read_num(v, "duration")?,
        kind: read_curve(v)?,
    })
}

fn write_sequence(c: &SequenceConfig) -> Value {
    table(vec![("name", text(&c.name)), ("steps", array(&c.steps, write_step))])
}

fn read_sequence(v: &Value) -> Result<SequenceConfig, String> {
    Ok(SequenceConfig {
        name: read_text(v, "name")?,
        steps: read_items(v, "steps", read_step)?,
    })
}

fn write_mimic(c: &MimicConfig) -> Value {
    table(vec![
        ("joint", text(&c.joint)),
        ("source", text(&c.source)),
        ("multiplier", num(c.multiplier)),
        ("offset", num(c.offset)),
    ])
}

fn read_mimic(v: &Value) -> Result<MimicConfig, String> {
    Ok(MimicConfig {
        joint: read_text(v, "joint")?,
        source: read_text(v, "source")?,
        multiplier: read_num(v, "multiplier")?,
        offset: read_num(v, "offset")?,
    })
}

fn write_sensor(c: &SensorConfig) -> Value {
    let mut rows = vec![
        ("name", text(&c.name)),
        ("link", text(&c.link)),
        ("origin", nums(&c.origin)),
        ("orientation", nums(&c.orientation)),
        ("update_rate", num(c.update_rate)),
    ];
    match &c.kind {
        SensorKind::Camera { fov, width, height, near, far } => {
            rows.push(("type", text("camera")));
            rows.push(("fov", num(*fov)));
            rows.push(("width", Value::Integer(*width as i64)));
            rows.push(("height", Value::Integer(*height as i64)));
            rows.push(("near", num(*near)));
            rows.push(("far", num(*far)));
        }
        SensorKind::Lidar { range_min, range_max, h_fov, h_samples, v_fov, v_samples } => {
            rows.push(("type", text("lidar")));
            rows.push(("range_min", num(*range_min)));
            rows.push(("range_max", num(*range_max)));
            rows.push(("h_fov", num(*h_fov)));
            rows.push(("h_samples", Value::Integer(*h_samples as i64)));
            rows.push(("v_fov", num(*v_fov)));
            rows.push(("v_samples", Value::Integer(*v_samples as i64)));
        }
        SensorKind::Imu { gyro_noise, accel_noise } => {
            rows.push(("type", text("imu")));
            rows.push(("gyro_noise", num(*gyro_noise)));
            rows.push(("accel_noise", num(*accel_noise)));
        }
        SensorKind::ForceTorque { joint } => {
            rows.push(("type", text("force_torque")));
            if let Some(j) = joint {
                rows.push(("joint", text(j)));
            }
        }
        SensorKind::Contact { partner } => {
            rows.push(("type", text("contact")));
            if let Some(p) = partner {
                rows.push(("partner", text(p)));
            }
        }
        SensorKind::Generic { kind, params } => {
            rows.push(("type", text("generic")));
            rows.push(("kind", text(kind)));
            let t: Table = params.iter().map(|(k, v)| (k.clone(), text(v))).collect();
            rows.push(("params", Value::Table(t)));
        }
    }
    table(rows)
}

fn read_sensor_kind(v: &Value) -> Result<SensorKind, String> {
    match read_text(v, "type")?.as_str() {
        "camera" => Ok(SensorKind::Camera {
            fov: read_num(v, "fov")?,
            width: read_count(v, "width")?,
            height: read_count(v, "height")?,
            near: read_num(v, "near")?,
            far: read_num(v, "far")?,
        }),
        "lidar" => Ok(SensorKind::Lidar {
            range_min: read_num(v, "range_min")?,
            range_max: read_num(v, "range_max")?,
            h_fov: read_num(v, "h_fov")?,
            h_samples: read_count(v, "h_samples")?,
            v_fov: read_num(v, "v_fov")?,
            v_samples: read_count(v, "v_samples")?,
        }),
        "imu" => Ok(SensorKind::Imu {
            gyro_noise: read_num(v, "gyro_noise")?,
            accel_noise: read_num(v, "accel_noise")?,
        }),
        "force_torque" => Ok(SensorKind::ForceTorque { joint: read_text(v, "joint").ok() }),
        "contact" => Ok(SensorKind::Contact { partner: read_text(v, "partner").ok() }),
        "generic" => {
            let rows = v.get("params").and_then(|x| x.as_table()).ok_or("no params")?;
            let params = rows
                .iter()
                .map(|(k, x)| (k.clone(), x.as_str().unwrap_or("").to_string()))
                .collect();
            Ok(SensorKind::Generic { kind: read_text(v, "kind")?, params })
        }
        other => Err(format!("unknown variant {}", other)),
    }
}

fn read_sensor(v: &Value) -> Result<SensorConfig, String> {
    Ok(SensorConfig {
        name: read_text(v, "name")?,
        link: read_text(v, "link")?,
        origin: read_nums(v, "origin")?,
        orientation: read_nums(v, "orientation")?,
        update_rate: read_num(v, "update_rate")?,
        kind: read_sensor_kind(v)?,
    })
}

fn write_gait(c: &GaitConfigEntry) -> Value {
    table(vec![
        ("name", text(&c.name)),
        ("gait_type", write_gait_type(c.gait_type)),
        ("cycle_period_s", num(c.cycle_period_s)),
        ("duty_factor", num(c.duty_factor)),
        ("swing_height_m", num(c.swing_height_m)),
        ("max_step_length_m", num(c.max_step_length_m)),
        ("fl_foot", text(&c.fl_foot)),
        ("fr_foot", text(&c.fr_foot)),
        ("rl_foot", text(&c.rl_foot)),
        ("rr_foot", text(&c.rr_foot)),
        ("knee_forward", array(&c.knee_forward, |b| Value::Boolean(*b))),
        ("four_support_fraction", num(c.four_support_fraction)),
    ])
}

fn read_gait(v: &Value) -> Result<GaitConfigEntry, String> {
    let knees: Vec<bool> =
        read_items(v, "knee_forward", |x| x.as_bool().ok_or("no flag".to_string()))?;
    Ok(GaitConfigEntry {
        name: read_text(v, "name")?,
        gait_type: read_gait_type(v)?,
        cycle_period_s: read_num(v, "cycle_period_s")?,
        duty_factor: read_num(v, "duty_factor")?,
        swing_height_m: read_num(v, "swing_height_m")?,
        max_step_length_m: read_num(v, "max_step_length_m")?,
        fl_foot: read_text(v, "fl_foot")?,
        fr_foot: read_text(v, "fr_foot")?,
        rl_foot: read_text(v, "rl_foot")?,
        rr_foot: read_text(v, "rr_foot")?,
        knee_forward: knees.try_into().map_err(|_| "knee_forward".to_string())?,
        four_support_fraction: read_num(v, "four_support_fraction")?,
    })
}

fn write_home(c: &HomeConfig) -> Value {
    table(vec![
        ("joint_positions", named(&c.joint_positions)),
        ("base_position", nums(&c.base_position)),
        ("base_orientation", nums(&c.base_orientation)),
    ])
}

fn read_home(v: &Value) -> Result<HomeConfig, String> {
    Ok(HomeConfig {
        joint_positions: read_named(v, "joint_positions")?,
        base_position: read_nums(v, "base_position")?,
        base_orientation: read_nums(v, "base_orientation")?,
    })
}

/// TOML texts.
struct Tables;

impl ConfigFormat for Tables {
    fn parse(&self, text: &str) -> Result<MisartaConfig, String> {
        let v = Value::Table(text.parse::<Table>().map_err(|e| e.to_string())?);
        let head = v.get("misarta").ok_or("missing field `misarta`")?;
        Ok(MisartaConfig {
            misarta: MisartaHeader { version: read_count(head, "version")? },
            loop_closure: read_items(&v, "loop_closure", read_loop)?,
            pose: read_items(&v, "pose", read_pose)?,
            actuator: read_items(&v, "actuator", read_actuator)?,
            collision_pair: read_items(&v, "collision_pair", read_pair)?,
            sequence: read_items(&v, "sequence", read_sequence)?,
            mimic: read_items(&v, "mimic", read_mimic)?,
            sensor: read_items(&v, "sensor", read_sensor)?,
            gait: read_items(&v, "gait", read_gait)?,
            home: match v.get("home") {
                Some(h) => read_home(h)?,
                None => HomeConfig::default(),
            },
        })
    }

    fn print(&self, c: &MisartaConfig) -> Result<String, String> {
        let v = table(vec![
            ("misarta", table(vec![("version", Value::Integer(c.misarta.version as i64))])),
            ("loop_closure", array(&c.loop_closure, write_loop)),
            ("pose", array(&c.pose, write_pose)),
            ("actuator", array(&c.actuator, write_actuator)),
            ("collision_pair", array(&c.collision_pair, write_pair)),
            ("sequence", array(&c.sequence, write_sequence)),
            ("mimic", array(&c.mimic, write_mimic)),
            ("sensor", array(&c.sensor, write_sensor)),
            ("gait", array(&c.gait, write_gait)),
            ("home", write_home(&c.home)),
        ]);
        toml::to_string_pretty(&v).map_err(|e| e.to_string())
    }

    fn stem(&self, path: &str) -> String {
        path.to_string()
    }

    fn with_name(&self, _: &str, name: &str) -> String {
        name.to_string()
    }
}

/// What is read of a written configuration.
fn again(config: &MisartaConfig) -> MisartaConfig {
    let toml = config.to_toml(&Tables).unwrap();
    MisartaConfig::from_toml(&Tables, &toml).unwrap()
}

fn empty() -> MisartaConfig {
    MisartaConfig { misarta: MisartaHeader { version: 1 }, ..MisartaConfig::new() }
}

fn reals3(x: [f64; 3]) -> [Real; 3] {
    x.map(r)
}

fn floats3(x: [Real; 3]) -> [f64; 3] {
    x.map(f)
}

#[test]
fn roundtrip_empty() {
    let config = MisartaConfig::new();
    let parsed = again(&config);
    assert!(parsed.loop_closure.is_empty());
    assert_eq!(parsed.misarta.version, CURRENT_VERSION);
}

#[test]
fn roundtrip_with_loop_closures() {
    let config = MisartaConfig {
        loop_closure: vec![
            LoopClosureConfig {
                name: "four_bar".into(),
                link_a: "coupler".into(),
                offset_a: reals3([0.3, 0.0, 0.0]),
                rot_a: default_quat(),
                link_b: "crank_right".into(),
                offset_b: reals3([0.0, 0.0, 0.2]),
                rot_b: default_quat(),
                pose_6dof: false,
            },
            LoopClosureConfig {
                name: "weld".into(),
                link_a: "hand_l".into(),
                offset_a: reals3([0.0, 0.0, 0.1]),
                rot_a: default_quat(),
                link_b: "hand_r".into(),
                offset_b: reals3([0.0, 0.0, 0.1]),
                rot_b: default_quat(),
                pose_6dof: true,
            },
        ],
        ..empty()
    };
    let parsed = again(&config);
    assert_eq!(parsed.loop_closure.len(), 2);
    assert_eq!(parsed.loop_closure[0].name, "four_bar");
    assert_eq!(floats3(parsed.loop_closure[0].offset_a), [0.3, 0.0, 0.0]);
    assert!(parsed.loop_closure[1].pose_6dof);
}

#[test]
fn roundtrip_with_actuators() {
    let config = MisartaConfig {
        actuator: vec![
            ActuatorConfig {
                joint_name: "hip_l".into(),
                mode: ActuatorMode::Position,
                kp: r(80.0),
                kv: r(6.5),
                armature: r(0.012),
                joint_damping: r(0.4),
            },
            ActuatorConfig {
                joint_name: "wheel_l".into(),
                mode: ActuatorMode::Velocity,
                kp: r(0.0),
                kv: r(12.0),
                armature: r(0.0),
                joint_damping: r(0.0),
            },
        ],
        ..empty()
    };
    let parsed = again(&config);
    assert_eq!(parsed.actuator.len(), 2);
    assert_eq!(parsed.actuator[0].joint_name, "hip_l");
    assert_eq!(parsed.actuator[0].mode, ActuatorMode::Position);
    assert!((f(parsed.actuator[0].kp) - 80.0).abs() < 1e-9);
    assert!((f(parsed.actuator[0].armature) - 0.012).abs() < 1e-9);
    assert!((f(parsed.actuator[0].joint_damping) - 0.4).abs() < 1e-9);
    assert_eq!(parsed.actuator[1].mode, ActuatorMode::Velocity);
    assert!((f(parsed.actuator[1].armature)).abs() < 1e-9);
}

#[test]
fn roundtrip_with_collision_pairs() {
    let config = MisartaConfig {
        collision_pair: vec![
            CollisionPairConfig {
                link_a: "trunk".into(),
                link_b: "FL_thigh".into(),
                enabled: false,
            },
            CollisionPairConfig {
                link_a: "FR_calf".into(),
                link_b: "FR_foot".into(),
                enabled: true,
            },
        ],
        ..empty()
    };
    let parsed = again(&config);
    assert_eq!(parsed.collision_pair.len(), 2);
    assert!(!parsed.collision_pair[0].enabled);
    assert!(parsed.collision_pair[1].enabled);
}

#[test]
fn roundtrip_with_sequences() {
    let config = MisartaConfig {
        sequence: vec![SequenceConfig {
            name: "jump".into(),
            steps: vec![
                SequenceStepConfig {
                    pose_name: "crouch".into(),
                    duration: r(0.5),
                    kind: InterpolationKind::QuinticSmooth,
                },
                SequenceStepConfig {
                    pose_name: "extended".into(),
                    duration: r(0.1),
                    kind: InterpolationKind::Linear,
                },
            ],
        }],
        ..empty()
    };
    let parsed = again(&config);
    assert_eq!(parsed.sequence.len(), 1);
    assert_eq!(parsed.sequence[0].name, "jump");
    assert_eq!(parsed.sequence[0].steps.len(), 2);
    assert_eq!(parsed.sequence[0].steps[0].pose_name, "crouch");
    assert!((f(parsed.sequence[0].steps[1].duration) - 0.1).abs() < 1e-9);
}

#[test]
fn roundtrip_with_mimic() {
    let config = MisartaConfig {
        mimic: vec![MimicConfig {
            joint: "wheel_r".into(),
            source: "wheel_l".into(),
            multiplier: r(-1.0),
            offset: r(0.0),
        }],
        ..empty()
    };
    let parsed = again(&config);
    assert_eq!(parsed.mimic.len(), 1);
    assert_eq!(parsed.mimic[0].source, "wheel_l");
    assert!((f(parsed.mimic[0].multiplier) - (-1.0)).abs() < 1e-9);
}

#[test]
fn roundtrip_with_sensors() {
    let config = MisartaConfig {
        sensor: vec![
            SensorConfig {
                name: "front_camera".into(),
                link: "head".into(),
                origin: reals3([0.1, 0.0, 0.05]),
                orientation: default_quat(),
                update_rate: r(30.0),
                kind: SensorKind::Camera {
                    fov: r(1.0),
                    width: 320,
                    height: 240,
                    near: r(0.05),
                    far: r(50.0),
                },
            },
            SensorConfig {
                name: "lidar".into(),
                link: "lidar_mount".into(),
                origin: reals3([0.0, 0.0, 0.1]),
                orientation: default_quat(),
                update_rate: r(10.0),
                kind: SensorKind::Lidar {
                    range_min: r(0.05),
                    range_max: r(30.0),
                    h_fov: r(std::f64::consts::TAU),
                    h_samples: 1024,
                    v_fov: r(0.5),
                    v_samples: 16,
                },
            },
            SensorConfig {
                name: "imu".into(),
                link: "trunk".into(),
                origin: reals3([0.0, 0.0, 0.0]),
                orientation: default_quat(),
                update_rate: r(200.0),
                kind: SensorKind::Imu { gyro_noise: r(0.001), accel_noise: r(0.01) },
            },
        ],
        ..empty()
    };
    let parsed = again(&config);
    assert_eq!(parsed.sensor.len(), 3);
    assert_eq!(parsed.sensor[0].name, "front_camera");
    match &parsed.sensor[0].kind {
        SensorKind::Camera { width, height, .. } => {
            assert_eq!(*width, 320);
            assert_eq!(*height, 240);
        }
        _ => panic!("expected Camera"),
    }
    match &parsed.sensor[1].kind {
        SensorKind::Lidar { h_samples, .. } => assert_eq!(*h_samples, 1024),
        _ => panic!("expected Lidar"),
    }
}

#[test]
fn roundtrip_with_gait() {
    let mut cfg = MisartaConfig::new();
    cfg.gait.push(GaitConfigEntry {
        name: "fast_trot".into(),
        gait_type: GaitTypeConfig::Trot,
        cycle_period_s: r(0.30),
        duty_factor: r(0.45),
        swing_height_m: r(0.05),
        max_step_length_m: r(0.12),
        fl_foot: "FL_paw".into(),
        fr_foot: "FR_paw".into(),
        rl_foot: "RL_paw".into(),
        rr_foot: "RR_paw".into(),
        knee_forward: [true, true, false, false],
        four_support_fraction: r(0.5),
    });
    let parsed = again(&cfg);
    assert_eq!(parsed.gait.len(), 1);
    let g = &parsed.gait[0];
    assert_eq!(g.name, "fast_trot");
    assert!((f(g.cycle_period_s) - 0.30).abs() < 1e-9);
    assert_eq!(g.fl_foot, "FL_paw");
    assert_eq!(g.knee_forward, [true, true, false, false]);
}

#[test]
fn roundtrip_with_pose_and_home() {
    let mut cfg = MisartaConfig::new();
    cfg.pose.push(PoseConfig {
        name: "crouch".into(),
        angles: vec![("hip".into(), r(0.5)), ("knee".into(), r(-1.25))],
        duration: r(2.0),
        kind: InterpolationKind::Linear,
    });
    cfg.home.joint_positions.push(("hip".into(), r(0.25)));
    cfg.home.base_position = reals3([1.0, 2.0, 3.0]);
    let parsed = again(&cfg);
    assert_eq!(parsed.pose.len(), 1);
    assert_eq!(parsed.pose[0].angles.len(), 2);
    assert_eq!(parsed.pose[0].angles[1].0, "knee");
    assert_eq!(f(parsed.pose[0].angles[1].1), -1.25);
    assert_eq!(parsed.pose[0].kind, InterpolationKind::Linear);
    assert_eq!(f(parsed.home.joint_positions[0].1), 0.25);
    assert_eq!(floats3(parsed.home.base_position), [1.0, 2.0, 3.0]);
    assert!(!parsed.home.is_empty());
}
