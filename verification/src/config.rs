//! Auxiliary data of a robot that its description file cannot hold.

use vstd::prelude::*;
use crate::number::{Real, ONE};
use crate::spatial::SpatialMath;
use crate::text;
use crate::text::decimal;

verus! {

/// Reading and writing the text of configurations, and taking paths apart.
///
/// Nothing is assumed of the results.
pub trait ConfigFormat {
    /// The configuration that a text stands for, or what is wrong with it.
    fn parse(&self, text: &str) -> Result<MisartaConfig, String>;

    /// The text of a configuration, or why there is none.
    fn print(&self, config: &MisartaConfig) -> Result<String, String>;

    /// The name of the file at a path without directories and without its last extension.
    fn stem(&self, path: &str) -> String;

    /// The path with another name of its file.
    fn with_name(&self, path: &str, name: &str) -> String;
}

/// Current version of the file format.
pub const CURRENT_VERSION: u32 = 1;

/// 1e-12.
pub const IDENTITY_TOLERANCE: u64 = 0x3d71_9799_812d_ea11;

/// A third of the ratio of circumference and diameter.
pub const FRAC_PI_3: u64 = 0x3ff0_c152_382d_7366;

/// Twice the ratio of circumference and diameter.
pub const TAU: u64 = 0x4019_21fb_5444_2d18;

// ── Tables of names ──

/// Whether a text comes before another one.
pub open spec fn text_before(a: Seq<char>, b: Seq<char>) -> bool
    decreases a.len(),
{
    if b.len() == 0 {
        false
    } else if a.len() == 0 {
        true
    } else if a[0] != b[0] {
        (a[0] as int) < (b[0] as int)
    } else {
        text_before(a.drop_first(), b.drop_first())
    }
}

/// Whether the names of a table ascend, so that none occurs twice.
pub open spec fn names_ascend<T>(rows: Seq<(String, T)>) -> bool {
    forall|i: int, j: int| 0 <= i < j < rows.len() ==> text_before(#[trigger] rows[i].0@, #[trigger] rows[j].0@)
}

/// No text comes before itself.
pub proof fn text_is_not_before_itself(a: Seq<char>)
    ensures
        !text_before(a, a),
    decreases a.len(),
{
    if a.len() > 0 {
        text_is_not_before_itself(a.drop_first());
    }
}

/// In a table whose names ascend, no name occurs twice.
pub proof fn names_are_distinct<T>(rows: Seq<(String, T)>, i: int, j: int)
    requires
        names_ascend(rows),
        0 <= i < j < rows.len(),
    ensures
        rows[i].0@ != rows[j].0@,
{
    text_is_not_before_itself(rows[i].0@);
    assert(text_before(rows[i].0@, rows[j].0@));
}

// ── Entries ──

/// File header.
#[derive(Clone, Copy, PartialEq, Eq, Structural, Debug)]
pub struct MisartaHeader {
    /// Version of the file format.
    pub version: u32,
}

/// Curve of a transition from one value to another.
#[derive(Clone, Copy, PartialEq, Eq, Structural, Debug)]
pub enum InterpolationKind {
    Linear,
    QuinticSmooth,
}

impl Default for InterpolationKind {
    fn default() -> (r: Self)
        ensures
            r == InterpolationKind::QuinticSmooth,
    {
        InterpolationKind::QuinticSmooth
    }
}

/// A named pose in joint space.
#[derive(Clone, Debug)]
pub struct PoseConfig {
    /// Human-readable name.
    pub name: String,
    /// Joint values by the name of the joint, in ascending order.
    pub angles: Vec<(String, Real)>,
    /// Transition time in seconds.
    pub duration: Real,
    /// Transition curve.
    pub kind: InterpolationKind,
}

/// Control mode of an actuator.
#[derive(Clone, Copy, PartialEq, Eq, Structural, Debug)]
pub enum ActuatorMode {
    Position,
    Velocity,
    Torque,
    /// Inverse dynamics with feedback.
    ComputedTorque,
    /// No degree of freedom and no actuator in an export.
    Fixed,
}

impl Default for ActuatorMode {
    fn default() -> (r: Self)
        ensures
            r == ActuatorMode::Position,
    {
        ActuatorMode::Position
    }
}

/// Actuator settings of a joint.
#[derive(Clone, Debug)]
pub struct ActuatorConfig {
    /// Name of the joint.
    pub joint_name: String,
    /// Control mode.
    pub mode: ActuatorMode,
    /// Position gain.
    pub kp: Real,
    /// Velocity gain.
    pub kv: Real,
    /// Reflected rotor inertia.
    pub armature: Real,
    /// Passive damping coefficient.
    pub joint_damping: Real,
}

/// Collision setting of a pair of links.
#[derive(Clone, Debug)]
pub struct CollisionPairConfig {
    pub link_a: String,
    pub link_b: String,
    /// Whether the links collide.
    pub enabled: bool,
}

/// A linear coupling: the joint is at the multiple of its source, plus an offset.
#[derive(Clone, Debug)]
pub struct MimicConfig {
    /// Joint that follows.
    pub joint: String,
    /// Joint that drives.
    pub source: String,
    pub multiplier: Real,
    pub offset: Real,
}

/// A sensor on a link.
#[derive(Clone, Debug)]
pub struct SensorConfig {
    /// Human-readable name.
    pub name: String,
    /// Link that carries the sensor.
    pub link: String,
    /// Translation in the frame of the link.
    pub origin: [Real; 3],
    /// Rotation in the frame of the link, as a quaternion with the scalar last.
    pub orientation: [Real; 4],
    /// Sample rate in Hz; zero leaves it to the simulator.
    pub update_rate: Real,
    /// What the sensor is.
    pub kind: SensorKind,
}

/// Type of a sensor, with its parameters.
#[derive(Clone, Debug)]
pub enum SensorKind {
    /// Pinhole or depth camera.
    Camera { fov: Real, width: u32, height: u32, near: Real, far: Real },
    /// Ray-cast sensor.
    Lidar { range_min: Real, range_max: Real, h_fov: Real, h_samples: u32, v_fov: Real, v_samples: u32 },
    /// Accelerometer and gyroscope.
    Imu { gyro_noise: Real, accel_noise: Real },
    /// Force and torque at a joint; without one, at the parent joint of the link.
    ForceTorque { joint: Option<String> },
    /// Contact of the link, with any other one or with one partner.
    Contact { partner: Option<String> },
    /// Any other sensor, with its parameters by name in ascending order.
    Generic { kind: String, params: Vec<(String, String)> },
}

/// A chain of poses.
#[derive(Clone, Debug)]
pub struct SequenceConfig {
    pub name: String,
    pub steps: Vec<SequenceStepConfig>,
}

/// One step of a chain of poses.
#[derive(Clone, Debug)]
pub struct SequenceStepConfig {
    /// Name of the pose to go to.
    pub pose_name: String,
    /// Transition time in seconds.
    pub duration: Real,
    /// Transition curve.
    pub kind: InterpolationKind,
}

/// A closed kinematic chain: a frame on one link coincides with a frame on another one.
#[derive(Clone, Debug)]
pub struct LoopClosureConfig {
    /// Human-readable name.
    pub name: String,
    /// First link.
    pub link_a: String,
    /// Translation on the first link.
    pub offset_a: [Real; 3],
    /// Rotation on the first link, as a quaternion with the scalar last.
    pub rot_a: [Real; 4],
    /// Second link.
    pub link_b: String,
    /// Translation on the second link.
    pub offset_b: [Real; 3],
    /// Rotation on the second link, as a quaternion with the scalar last.
    pub rot_b: [Real; 4],
    /// Whether orientations coincide too.
    pub pose_6dof: bool,
}

/// Joint values and base placement to start from.
#[derive(Clone, Debug)]
pub struct HomeConfig {
    /// Joint values by the name of the joint, in ascending order.
    pub joint_positions: Vec<(String, Real)>,
    /// Translation of the base.
    pub base_position: [Real; 3],
    /// Rotation of the base, as a quaternion with the scalar last.
    pub base_orientation: [Real; 4],
}

/// Gait family.
#[derive(Clone, Copy, PartialEq, Eq, Structural, Debug)]
pub enum GaitTypeConfig {
    Trot,
    Walk,
    Pace,
    Bound,
    Crawl,
}

impl Default for GaitTypeConfig {
    fn default() -> (r: Self)
        ensures
            r == GaitTypeConfig::Trot,
    {
        GaitTypeConfig::Trot
    }
}

/// A gait preset of a four-legged robot.
#[derive(Clone, Debug)]
pub struct GaitConfigEntry {
    /// Name of the preset.
    pub name: String,
    pub gait_type: GaitTypeConfig,
    /// Period of a full leg cycle in seconds.
    pub cycle_period_s: Real,
    /// Fraction of the cycle that a foot is in stance.
    pub duty_factor: Real,
    /// Height of the swing in metres.
    pub swing_height_m: Real,
    /// Longest step in metres.
    pub max_step_length_m: Real,
    pub fl_foot: String,
    pub fr_foot: String,
    pub rl_foot: String,
    pub rr_foot: String,
    /// Whether the knee of each leg bends forward.
    pub knee_forward: [bool; 4],
    /// Fraction of the part of the cycle of a leg before it lifts.
    pub four_support_fraction: Real,
}

/// Auxiliary data of a robot.
#[derive(Clone, Debug)]
pub struct MisartaConfig {
    /// File header with version.
    pub misarta: MisartaHeader,
    /// Closed kinematic chains.
    pub loop_closure: Vec<LoopClosureConfig>,
    /// Named poses.
    pub pose: Vec<PoseConfig>,
    /// Actuator settings.
    pub actuator: Vec<ActuatorConfig>,
    /// Collision settings of pairs of links.
    pub collision_pair: Vec<CollisionPairConfig>,
    /// Chains of poses.
    pub sequence: Vec<SequenceConfig>,
    /// Coupled joints.
    pub mimic: Vec<MimicConfig>,
    /// Sensors.
    pub sensor: Vec<SensorConfig>,
    /// Gait presets.
    pub gait: Vec<GaitConfigEntry>,
    /// Joint values and base placement to start from.
    pub home: HomeConfig,
}

// ── Defaults ──

/// One second.
pub fn default_duration() -> (r: Real)
    ensures
        r.bits == ONE,
{
    Real { bits: ONE }
}

/// Position gain 50.
pub fn default_actuator_kp() -> (r: Real)
    ensures
        r.bits == 0x4049_0000_0000_0000,
{
    Real { bits: 0x4049_0000_0000_0000 }
}

/// Velocity gain 5.
pub fn default_actuator_kv() -> (r: Real)
    ensures
        r.bits == 0x4014_0000_0000_0000,
{
    Real { bits: 0x4014_0000_0000_0000 }
}

/// Pairs collide.
pub fn default_pair_enabled() -> (r: bool)
    ensures
        r,
{
    true
}

/// One.
pub fn default_one() -> (r: Real)
    ensures
        r.bits == ONE,
{
    Real { bits: ONE }
}

/// Sixty degrees.
pub fn default_fov() -> (r: Real)
    ensures
        r.bits == FRAC_PI_3,
{
    Real { bits: FRAC_PI_3 }
}

/// Width of an image.
pub fn default_width() -> (r: u32)
    ensures
        r == 640,
{
    640
}

/// Height of an image.
pub fn default_height() -> (r: u32)
    ensures
        r == 480,
{
    480
}

/// 0.05.
pub fn default_near() -> (r: Real)
    ensures
        r.bits == 0x3fa9_9999_9999_999a,
{
    Real { bits: 0x3fa9_9999_9999_999a }
}

/// 100.
pub fn default_far() -> (r: Real)
    ensures
        r.bits == 0x4059_0000_0000_0000,
{
    Real { bits: 0x4059_0000_0000_0000 }
}

/// 0.05.
pub fn default_lidar_range_min() -> (r: Real)
    ensures
        r.bits == 0x3fa9_9999_9999_999a,
{
    Real { bits: 0x3fa9_9999_9999_999a }
}

/// 30.
pub fn default_lidar_range_max() -> (r: Real)
    ensures
        r.bits == 0x403e_0000_0000_0000,
{
    Real { bits: 0x403e_0000_0000_0000 }
}

/// A full turn.
pub fn default_lidar_h_fov() -> (r: Real)
    ensures
        r.bits == TAU,
{
    Real { bits: TAU }
}

/// Horizontal samples of a scan.
pub fn default_lidar_h_samples() -> (r: u32)
    ensures
        r == 360,
{
    360
}

/// Vertical samples of a scan.
pub fn default_lidar_v_samples() -> (r: u32)
    ensures
        r == 1,
{
    1
}

/// One second.
pub fn default_step_duration() -> (r: Real)
    ensures
        r.bits == ONE,
{
    Real { bits: ONE }
}

/// The quaternion that turns nothing.
#[verifier::allow_in_spec]
pub fn default_quat() -> [Real; 4]
    returns
        [Real { bits: 0 }, Real { bits: 0 }, Real { bits: 0 }, Real { bits: ONE }],
{
    [Real { bits: 0 }, Real { bits: 0 }, Real { bits: 0 }, Real { bits: ONE }]
}

/// The origin.
#[verifier::allow_in_spec]
pub fn default_zero3() -> [Real; 3]
    returns
        [Real { bits: 0 }, Real { bits: 0 }, Real { bits: 0 }],
{
    [Real { bits: 0 }, Real { bits: 0 }, Real { bits: 0 }]
}

/// The quaternion that turns nothing.
#[verifier::allow_in_spec]
pub fn default_identity_quat() -> [Real; 4]
    returns
        [Real { bits: 0 }, Real { bits: 0 }, Real { bits: 0 }, Real { bits: ONE }],
{
    [Real { bits: 0 }, Real { bits: 0 }, Real { bits: 0 }, Real { bits: ONE }]
}

/// 0.4 seconds.
pub fn default_cycle_period() -> (r: Real)
    ensures
        r.bits == 0x3fd9_9999_9999_999a,
{
    Real { bits: 0x3fd9_9999_9999_999a }
}

/// One half.
pub fn default_duty_factor() -> (r: Real)
    ensures
        r.bits == 0x3fe0_0000_0000_0000,
{
    Real { bits: 0x3fe0_0000_0000_0000 }
}

/// 0.04 metres.
pub fn default_swing_height() -> (r: Real)
    ensures
        r.bits == 0x3fa4_7ae1_47ae_147b,
{
    Real { bits: 0x3fa4_7ae1_47ae_147b }
}

/// 0.1 metres.
pub fn default_max_step() -> (r: Real)
    ensures
        r.bits == 0x3fb9_9999_9999_999a,
{
    Real { bits: 0x3fb9_9999_9999_999a }
}

/// One half.
pub fn default_four_support_fraction() -> (r: Real)
    ensures
        r.bits == 0x3fe0_0000_0000_0000,
{
    Real { bits: 0x3fe0_0000_0000_0000 }
}

/// Front left foot.
pub fn default_fl_foot() -> (r: String)
    ensures
        r@ == "FL_foot"@,
{
    "FL_foot".to_owned()
}

/// Front right foot.
pub fn default_fr_foot() -> (r: String)
    ensures
        r@ == "FR_foot"@,
{
    "FR_foot".to_owned()
}

/// Rear left foot.
pub fn default_rl_foot() -> (r: String)
    ensures
        r@ == "RL_foot"@,
{
    "RL_foot".to_owned()
}

/// Rear right foot.
pub fn default_rr_foot() -> (r: String)
    ensures
        r@ == "RR_foot"@,
{
    "RR_foot".to_owned()
}

impl Default for GaitConfigEntry {
    fn default() -> (r: Self)
        ensures
            r.name@ == "default"@,
            r.gait_type == GaitTypeConfig::Trot,
            r.cycle_period_s.bits == 0x3fd9_9999_9999_999a,
            r.duty_factor.bits == 0x3fe0_0000_0000_0000,
            r.swing_height_m.bits == 0x3fa4_7ae1_47ae_147b,
            r.max_step_length_m.bits == 0x3fb9_9999_9999_999a,
            r.fl_foot@ == "FL_foot"@,
            r.fr_foot@ == "FR_foot"@,
            r.rl_foot@ == "RL_foot"@,
            r.rr_foot@ == "RR_foot"@,
            r.knee_forward@ == seq![false, false, false, false],
            r.four_support_fraction.bits == 0x3fe0_0000_0000_0000,
    {
        let r = GaitConfigEntry {
            name: "default".to_owned(),
            gait_type: GaitTypeConfig::default(),
            cycle_period_s: default_cycle_period(),
            duty_factor: default_duty_factor(),
            swing_height_m: default_swing_height(),
            max_step_length_m: default_max_step(),
            fl_foot: default_fl_foot(),
            fr_foot: default_fr_foot(),
            rl_foot: default_rl_foot(),
            rr_foot: default_rr_foot(),
            knee_forward: [false, false, false, false],
            four_support_fraction: default_four_support_fraction(),
        };
        assert(r.knee_forward@ =~= seq![false, false, false, false]);
        r
    }
}

// ── Quaternions ──

/// Whether a number is within the tolerance of zero.
pub open spec fn negligible(x: Real) -> bool {
    x.unsigned().below(Real { bits: IDENTITY_TOLERANCE })
}

/// Whether a quaternion turns nothing, up to the tolerance, judged by the distances of its scalar
/// from one and from minus one.
pub open spec fn near_identity(q: [Real; 4], from_one: Real, from_minus_one: Real) -> bool {
    &&& negligible(q[0])
    &&& negligible(q[1])
    &&& negligible(q[2])
    &&& negligible(from_one) || negligible(from_minus_one)
}

/// Whether a quaternion turns nothing, up to a tolerance.
pub fn is_identity_quat<K: SpatialMath>(k: &K, q: &[Real; 4]) -> (r: bool)
    ensures
        exists|a: Real, b: Real| #[trigger]
            call_ensures(K::difference, (k, q[3], Real { bits: ONE }), a) && #[trigger] call_ensures(
                K::sum,
                (k, q[3], Real { bits: ONE }),
                b,
            ) && r == near_identity(*q, a, b),
{
    let tolerance = Real { bits: IDENTITY_TOLERANCE };
    let a = k.difference(q[3], Real { bits: ONE });
    let b = k.sum(q[3], Real { bits: ONE });
    let r = q[0].abs().lt(tolerance) && q[1].abs().lt(tolerance) && q[2].abs().lt(tolerance) && (
    a.abs().lt(tolerance) || b.abs().lt(tolerance));
    assert(call_ensures(K::difference, (k, q[3], Real { bits: ONE }), a));
    assert(call_ensures(K::sum, (k, q[3], Real { bits: ONE }), b));
    r
}

// ── Home ──

/// Whether two lists of numbers agree.
pub open spec fn agree(a: Seq<Real>, b: Seq<Real>) -> bool {
    a.len() == b.len() && forall|i: int| 0 <= i < a.len() ==> (#[trigger] a[i]).same(b[i])
}

impl HomeConfig {
    /// Whether the names ascend.
    pub open spec fn wf(self) -> bool {
        names_ascend(self.joint_positions@)
    }

    /// Whether there are no joint values, and the base is at the origin without rotation.
    pub open spec fn empty(self) -> bool {
        &&& self.joint_positions@.len() == 0
        &&& agree(self.base_position@, default_zero3()@)
        &&& agree(self.base_orientation@, default_identity_quat()@)
    }

    /// Whether every field has its default value.
    pub fn is_empty(&self) -> (r: bool)
        ensures
            r == self.empty(),
    {
        let p = self.base_position;
        let o = self.base_orientation;
        let zero = Real { bits: 0 };
        let at_origin = p[0].equals(zero) && p[1].equals(zero) && p[2].equals(zero);
        let unturned = o[0].equals(zero) && o[1].equals(zero) && o[2].equals(zero) && o[3].equals(
            Real { bits: ONE },
        );
        proof {
            let ps = self.base_position@;
            let os = self.base_orientation@;
            if agree(ps, default_zero3()@) {
                assert(ps[0].same(zero) && ps[1].same(zero) && ps[2].same(zero));
            }
            if agree(os, default_identity_quat()@) {
                assert(os[0].same(zero) && os[1].same(zero) && os[2].same(zero) && os[3].same(
                    Real { bits: ONE },
                ));
            }
        }
        self.joint_positions.len() == 0 && at_origin && unturned
    }
}

impl Default for HomeConfig {
    fn default() -> (r: Self)
        ensures
            r.wf(),
            r.empty(),
            r.joint_positions@.len() == 0,
            r.base_position == default_zero3(),
            r.base_orientation == default_identity_quat(),
    {
        HomeConfig {
            joint_positions: Vec::new(),
            base_position: default_zero3(),
            base_orientation: default_identity_quat(),
        }
    }
}

// ── Whole configurations ──

impl MisartaConfig {
    /// Whether the names of every table ascend.
    pub open spec fn wf(self) -> bool {
        &&& forall|i: int| 0 <= i < self.pose@.len() ==> names_ascend((#[trigger] self.pose@[i]).angles@)
        &&& forall|i: int|
            0 <= i < self.sensor@.len() ==> match (#[trigger] self.sensor@[i]).kind {
                SensorKind::Generic { kind, params } => names_ascend(params@),
                _ => true,
            }
        &&& self.home.wf()
    }

    /// Whether there is nothing worth saving: no entry of any kind, and home where it is by default.
    pub open spec fn empty(self) -> bool {
        &&& self.loop_closure@.len() == 0
        &&& self.pose@.len() == 0
        &&& self.actuator@.len() == 0
        &&& self.collision_pair@.len() == 0
        &&& self.sequence@.len() == 0
        &&& self.mimic@.len() == 0
        &&& self.sensor@.len() == 0
        &&& self.gait@.len() == 0
        &&& self.home.empty()
    }

    /// Creates an empty configuration.
    pub fn new() -> (r: Self)
        ensures
            r.wf(),
            r.empty(),
            r.misarta.version == CURRENT_VERSION,
            r.gait@.len() == 0,
            r.home.empty(),
            r.home.joint_positions@.len() == 0,
            r.home.base_position == default_zero3(),
            r.home.base_orientation == default_identity_quat(),
    {
        MisartaConfig {
            misarta: MisartaHeader { version: CURRENT_VERSION },
            loop_closure: Vec::new(),
            pose: Vec::new(),
            actuator: Vec::new(),
            collision_pair: Vec::new(),
            sequence: Vec::new(),
            mimic: Vec::new(),
            sensor: Vec::new(),
            gait: Vec::new(),
            home: HomeConfig::default(),
        }
    }

    /// Whether there is nothing worth saving: no entry of any kind, and home where it is by default.
    pub fn is_empty(&self) -> (r: bool)
        ensures
            r == self.empty(),
    {
        self.loop_closure.len() == 0 && self.pose.len() == 0 && self.actuator.len() == 0
            && self.collision_pair.len() == 0 && self.sequence.len() == 0 && self.mimic.len() == 0
            && self.sensor.len() == 0 && self.gait.len() == 0 && self.home.is_empty()
    }

    /// Takes what a parser made of a file: a configuration whose version is not beyond the
    /// current one is accepted, anything else is an error with a text.
    pub fn from_parsed(parsed: Result<MisartaConfig, String>) -> (r: Result<MisartaConfig, String>)
        ensures
            accepted(parsed, r),
    {
        match parsed {
            Err(e) => Err(joined("Failed to parse misarta TOML: ", e.as_str())),
            Ok(c) => {
                if c.misarta.version > CURRENT_VERSION {
                    let mut t = joined(
                        "Unsupported misarta config version ",
                        decimal(c.misarta.version as usize).as_str(),
                    );
                    t.append(" (max supported: ");
                    t.append(decimal(CURRENT_VERSION as usize).as_str());
                    t.append(")");
                    Err(t)
                } else {
                    Ok(c)
                }
            },
        }
    }

    /// Takes what a serializer made of a configuration: a text, or an error with a text.
    pub fn from_serialized(text: Result<String, String>) -> (r: Result<String, String>)
        ensures
            delivered(text, r),
    {
        match text {
            Err(e) => Err(joined("Failed to serialize misarta TOML: ", e.as_str())),
            Ok(s) => Ok(s),
        }
    }

    /// Parses a configuration.
    pub fn from_toml<K: ConfigFormat>(k: &K, text: &str) -> (r: Result<MisartaConfig, String>)
        ensures
            exists|p: Result<MisartaConfig, String>| #[trigger]
                call_ensures(K::parse, (k, text), p) && accepted(p, r),
    {
        let p = k.parse(text);
        let ghost q = p;
        let r = Self::from_parsed(p);
        assert(call_ensures(K::parse, (k, text), q) && accepted(q, r));
        r
    }

    /// Writes a configuration as text.
    pub fn to_toml<K: ConfigFormat>(&self, k: &K) -> (r: Result<String, String>)
        ensures
            exists|p: Result<String, String>| #[trigger]
                call_ensures(K::print, (k, self), p) && delivered(p, r),
    {
        let p = k.print(self);
        let ghost q = p;
        let r = Self::from_serialized(p);
        assert(call_ensures(K::print, (k, self), q) && delivered(q, r));
        r
    }

    /// Path of the configuration file beside the file of a robot model.
    pub fn config_path_for<K: ConfigFormat>(k: &K, model_path: &str) -> (r: String)
        ensures
            exists|stem: String, name: &str| #[trigger]
                call_ensures(K::stem, (k, model_path), stem) && #[trigger] call_ensures(
                    K::with_name,
                    (k, model_path, name),
                    r,
                ) && name@ == stem@ + ".misarta.toml"@,
    {
        let stem = k.stem(model_path);
        let name = Self::file_name_for(stem.as_str());
        let n: &str = name.as_str();
        let r = k.with_name(model_path, n);
        assert(call_ensures(K::stem, (k, model_path), stem));
        assert(call_ensures(K::with_name, (k, model_path, n), r));
        r
    }

    /// Name of the configuration file beside the file of a robot model with the given stem.
    pub fn file_name_for(stem: &str) -> (r: String)
        ensures
            r@ == stem@ + ".misarta.toml"@,
    {
        joined(stem, ".misarta.toml")
    }
}

impl Default for MisartaConfig {
    fn default() -> (r: Self)
        ensures
            r.wf(),
            r.empty(),
            r.misarta.version == CURRENT_VERSION,
            r.gait@.len() == 0,
            r.home.empty(),
            r.home.joint_positions@.len() == 0,
            r.home.base_position == default_zero3(),
            r.home.base_orientation == default_identity_quat(),
    {
        Self::new()
    }
}

/// Whether `r` is what becomes of a parsed file: a configuration whose version is not beyond the
/// current one, or an error with a text.
pub open spec fn accepted(parsed: Result<MisartaConfig, String>, r: Result<MisartaConfig, String>) -> bool {
    match parsed {
        Err(e) => r matches Err(t) && t@ == parse_failure(e@),
        Ok(c) => if c.misarta.version > CURRENT_VERSION {
            r matches Err(t) && t@ == version_failure(c.misarta.version as int)
        } else {
            r == Ok::<MisartaConfig, String>(c)
        },
    }
}

/// Whether `r` is what becomes of the text of a configuration, or of the error instead of it.
pub open spec fn delivered(text: Result<String, String>, r: Result<String, String>) -> bool {
    match text {
        Err(e) => r matches Err(t) && t@ == "Failed to serialize misarta TOML: "@ + e@,
        Ok(s) => r == Ok::<String, String>(s),
    }
}

/// What is said of a file that cannot be parsed.
pub open spec fn parse_failure(e: Seq<char>) -> Seq<char> {
    "Failed to parse misarta TOML: "@ + e
}

/// What is said of a version beyond the current one.
pub open spec fn version_failure(version: int) -> Seq<char> {
    "Unsupported misarta config version "@ + text::dec(version) + " (max supported: "@ + text::dec(
        CURRENT_VERSION as int,
    ) + ")"@
}

/// Two texts, one after the other.
fn joined(a: &str, b: &str) -> (r: String)
    ensures
        r@ == a@ + b@,
{
    let mut r = a.to_owned();
    r.append(b);
    r
}

/// What is accepted is accepted again.
pub proof fn acceptance_is_stable(
    parsed: Result<MisartaConfig, String>,
    r: Result<MisartaConfig, String>,
    s: Result<MisartaConfig, String>,
)
    requires
        accepted(parsed, r),
        r is Ok,
        accepted(r, s),
    ensures
        s == r,
        s->Ok_0.misarta.version <= CURRENT_VERSION,
{
}

/// If a text that was written for a configuration stands for that configuration again, reading it
/// gives back the configuration.
pub proof fn written_is_read_back(
    c: MisartaConfig,
    text: Result<String, String>,
    written: Result<String, String>,
    parsed: Result<MisartaConfig, String>,
    read: Result<MisartaConfig, String>,
)
    requires
        c.misarta.version <= CURRENT_VERSION,
        text is Ok,
        delivered(text, written),
        parsed == Ok::<MisartaConfig, String>(c),
        accepted(parsed, read),
    ensures
        written == text,
        read == Ok::<MisartaConfig, String>(c),
{
}

} // verus!
