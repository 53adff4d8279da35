//! Kinematic trees.

use vstd::prelude::*;
use crate::joint::JointType;
use crate::number::{Real, Vector3};
use crate::spatial::{LinkInertia, Placement, SpatialMath};
use crate::text::same_text;

verus! {

/// A joint of a model.
#[derive(Clone, Debug)]
pub struct Joint {
    pub name: String,
    /// Number of the joint that this one is attached to.
    pub parent: usize,
    pub joint_type: JointType,
    /// Placement in the frame of the parent before the joint moves.
    pub placement: Placement,
}

/// A kinematic tree.  Joint zero is the world.
#[derive(Clone, Debug)]
pub struct Model {
    pub joints: Vec<Joint>,
    /// Where each joint's configuration begins.
    pub q_idx: Vec<usize>,
    /// Where each joint's velocity begins.
    pub v_idx: Vec<usize>,
    pub nq: usize,
    pub nv: usize,
    /// Mass properties of the body behind each joint.
    pub inertias: Vec<LinkInertia>,
    pub gravity: Vector3,
    /// Name of the body behind each joint.
    pub link_names: Vec<String>,
}

/// How many configuration numbers the first `n` joints have.
pub open spec fn nq_before(joints: Seq<Joint>, n: int) -> int
    decreases n,
{
    if n <= 0 {
        0
    } else {
        nq_before(joints, n - 1) + joints[n - 1].joint_type.nq()
    }
}

/// How many velocity numbers the first `n` joints have.
pub open spec fn nv_before(joints: Seq<Joint>, n: int) -> int
    decreases n,
{
    if n <= 0 {
        0
    } else {
        nv_before(joints, n - 1) + joints[n - 1].joint_type.nv()
    }
}

pub proof fn before_is_monotone(joints: Seq<Joint>, m: int, n: int)
    requires
        0 <= m <= n <= joints.len(),
    ensures
        0 <= nq_before(joints, m) <= nq_before(joints, n),
        0 <= nv_before(joints, m) <= nv_before(joints, n),
    decreases n - m, m,
{
    if m < n {
        before_is_monotone(joints, m, n - 1);
    } else if m > 0 {
        before_is_monotone(joints, m - 1, m - 1);
    }
}

impl Model {
    /// Whether parents come before children and the parts of the configuration
    /// and velocity follow one another.
    pub open spec fn wf(self) -> bool {
        let n = self.joints@.len();
        &&& n >= 1
        &&& self.q_idx@.len() == n
        &&& self.v_idx@.len() == n
        &&& self.inertias@.len() == n
        &&& self.joints@[0].joint_type == JointType::Fixed
        &&& forall|i: int| 1 <= i < n ==> (#[trigger] self.joints@[i]).parent < i
        &&& forall|i: int| 0 <= i < n ==> (#[trigger] self.q_idx@[i]) == nq_before(self.joints@, i)
        &&& forall|i: int| 0 <= i < n ==> (#[trigger] self.v_idx@[i]) == nv_before(self.joints@, i)
        &&& self.nq == nq_before(self.joints@, n as int)
        &&& self.nv == nv_before(self.joints@, n as int)
    }

    /// Number of the joint that joint `i` is attached to.
    pub open spec fn parent(self, i: int) -> int {
        self.joints@[i].parent as int
    }

    /// Kind of joint `i`.
    pub open spec fn kind(self, i: int) -> JointType {
        self.joints@[i].joint_type
    }

    /// Whether joint `j` lies on the way from joint `i` to the world, `i` included.
    pub open spec fn supports(self, j: int, i: int) -> bool
        decreases i,
    {
        ||| j == i
        ||| i > 0 && self.parent(i) < i && self.supports(j, self.parent(i))
    }

    /// The parts of a joint lie within configuration and velocity, those of two
    /// joints apart.
    pub proof fn ranges(self, i: int)
        requires
            self.wf(),
            0 <= i < self.joints@.len(),
        ensures
            self.q_idx@[i] + self.kind(i).nq() <= self.nq,
            self.v_idx@[i] + self.kind(i).nv() <= self.nv,
            forall|j: int|
                0 <= j < i ==> (#[trigger] self.v_idx@[j]) + self.kind(j).nv() <= self.v_idx@[i],
    {
        let n = self.joints@.len() as int;
        before_is_monotone(self.joints@, i + 1, n);
        assert forall|j: int| 0 <= j < i implies (#[trigger] self.v_idx@[j]) + self.kind(j).nv()
            <= self.v_idx@[i] by {
            before_is_monotone(self.joints@, j + 1, i);
        }
    }

    /// Number of the first joint with a name.
    pub fn joint_index(&self, name: &str) -> (r: Option<usize>)
        ensures
            match r {
                Some(i) => i < self.joints@.len() && self.joints@[i as int].name@ == name@ && forall|j: int|
                    0 <= j < i ==> (#[trigger] self.joints@[j]).name@ != name@,
                None => forall|j: int|
                    0 <= j < self.joints@.len() ==> (#[trigger] self.joints@[j]).name@ != name@,
            },
    {
        for i in 0..self.joints.len()
            invariant
                forall|j: int| 0 <= j < i ==> (#[trigger] self.joints@[j]).name@ != name@,
        {
            if same_text(self.joints[i].name.as_str(), name) {
                return Some(i);
            }
        }
        None
    }
}

/// On the way to the world joint numbers fall.
pub proof fn support_is_below(m: Model, j: int, i: int)
    requires
        m.supports(j, i),
        0 <= i,
    ensures
        j <= i,
    decreases i,
{
    if j != i {
        support_is_below(m, j, m.parent(i));
    }
}

/// A joint that supports one that supports a third supports the third.
pub proof fn support_is_transitive(m: Model, a: int, b: int, c: int)
    requires
        m.supports(a, b),
        m.supports(b, c),
    ensures
        m.supports(a, c),
    decreases c,
{
    if b != c {
        support_is_transitive(m, a, b, m.parent(c));
    }
}

/// Puts a model together joint by joint.
pub struct ModelBuilder {
    model: Model,
}

impl ModelBuilder {
    pub closed spec fn model(self) -> Model {
        self.model
    }

    /// A model of the world alone.
    pub fn new() -> (r: Self)
        ensures
            r.model().wf(),
            r.model().joints@.len() == 1,
            r.model().joints@[0].name@ == "universe"@,
            r.model().joints@[0].parent == 0,
            r.model().joints@[0].joint_type is Fixed,
            r.model().joints@[0].placement == Placement::identity(),
            r.model().nq == 0,
            r.model().nv == 0,
            r.model().inertias@ == seq![LinkInertia::zero()],
            r.model().gravity == (Vector3 {
                x: Real::zero(),
                y: Real::zero(),
                z: Real { bits: STANDARD_GRAVITY },
            }),
            r.model().link_names@.len() == 1,
            r.model().link_names@[0]@ == "universe"@,
    {
        let mut joints: Vec<Joint> = Vec::new();
        joints.push(
            Joint {
                name: "universe".to_owned(),
                parent: 0,
                joint_type: JointType::Fixed,
                placement: Placement::identity(),
            },
        );
        let mut q_idx: Vec<usize> = Vec::new();
        q_idx.push(0);
        let mut v_idx: Vec<usize> = Vec::new();
        v_idx.push(0);
        let mut inertias: Vec<LinkInertia> = Vec::new();
        inertias.push(LinkInertia::zero());
        let mut link_names: Vec<String> = Vec::new();
        link_names.push("universe".to_owned());
        let gravity = Vector3 {
            x: Real::zero(),
            y: Real::zero(),
            z: Real { bits: STANDARD_GRAVITY },
        };
        let model = Model { joints, q_idx, v_idx, nq: 0, nv: 0, inertias, gravity, link_names };
        proof {
            reveal_with_fuel(nq_before, 2);
            reveal_with_fuel(nv_before, 2);
        }
        ModelBuilder { model }
    }

    /// Attaches a joint to an earlier one.
    pub fn add_joint(
        self,
        name: &str,
        parent: usize,
        joint_type: JointType,
        placement: Placement,
        inertia: LinkInertia,
    ) -> (r: Self)
        requires
            self.model().wf(),
            parent < self.model().joints@.len(),
            self.model().nq + joint_type.nq() <= usize::MAX,
        ensures
            r.model().wf(),
            r.model().joints@.len() == self.model().joints@.len() + 1,
            r.model().joints@.drop_last() == self.model().joints@,
            r.model().joints@.last().name@ == name@,
            r.model().joints@.last().parent == parent,
            r.model().joints@.last().joint_type == joint_type,
            r.model().joints@.last().placement == placement,
            r.model().inertias@ == self.model().inertias@.push(inertia),
            r.model().gravity == self.model().gravity,
            r.model().nq == self.model().nq + joint_type.nq(),
            r.model().nv == self.model().nv + joint_type.nv(),
            r.model().link_names@.len() == self.model().link_names@.len() + 1,
            r.model().link_names@.drop_last() == self.model().link_names@,
            r.model().link_names@.last()@ == name@,
    {
        let mut m = self.model;
        let ghost before = m;
        proof {
            nv_at_most_nq(m.joints@, m.joints@.len() as int);
        }
        m.q_idx.push(m.nq);
        m.v_idx.push(m.nv);
        m.nq = m.nq + joint_type.nq();
        m.nv = m.nv + joint_type.nv();
        m.joints.push(Joint { name: name.to_owned(), parent, joint_type, placement });
        m.inertias.push(inertia);
        m.link_names.push(name.to_owned());
        proof {
            let n = before.joints@.len() as int;
            assert(m.joints@.drop_last() =~= before.joints@);
            assert(m.link_names@.drop_last() =~= before.link_names@);
            assert forall|i: int| 0 <= i <= n implies nq_before(m.joints@, i) == nq_before(
                before.joints@,
                i,
            ) && nv_before(m.joints@, i) == nv_before(before.joints@, i) by {
                before_prefix(before.joints@, m.joints@, i);
            }
        }
        ModelBuilder { model: m }
    }

    /// Sets the acceleration of free fall.
    pub fn gravity(self, gravity: Vector3) -> (r: Self)
        requires
            self.model().wf(),
        ensures
            r.model().wf(),
            r.model() == (Model { gravity, ..self.model() }),
    {
        let mut m = self.model;
        m.gravity = gravity;
        ModelBuilder { model: m }
    }

    /// The finished model.
    pub fn build(self) -> (m: Model)
        ensures
            m == self.model(),
    {
        self.model
    }
}

/// Bits of -9.81.
pub const STANDARD_GRAVITY: u64 = 0xC023_9EB8_51EB_851F;

/// Velocities have no more numbers than configurations.
pub proof fn nv_at_most_nq(joints: Seq<Joint>, n: int)
    requires
        0 <= n <= joints.len(),
    ensures
        0 <= nv_before(joints, n) <= nq_before(joints, n),
    decreases n,
{
    if n > 0 {
        nv_at_most_nq(joints, n - 1);
    }
}

proof fn before_prefix(a: Seq<Joint>, b: Seq<Joint>, n: int)
    requires
        0 <= n <= a.len(),
        n <= b.len(),
        forall|i: int| 0 <= i < n ==> (#[trigger] a[i]) == b[i],
    ensures
        nq_before(a, n) == nq_before(b, n),
        nv_before(a, n) == nv_before(b, n),
    decreases n,
{
    if n > 0 {
        before_prefix(a, b, n - 1);
        assert(a[n - 1] == b[n - 1]);
    }
}

/// Whether `r` is the placement of joint `i` in the frame of its parent.
pub open spec fn relative<K: SpatialMath>(k: &K, m: Model, q: Seq<Real>, i: int, r: Placement) -> bool {
    exists|x: Placement|
        {
            &&& #[trigger] m.kind(i).placed(k, q, m.q_idx@[i] as int, x)
            &&& call_ensures(K::compose, (k, m.joints@[i].placement, x), r)
        }
}

/// Placement of joint `i` in the frame of its parent.
pub fn relative_placement<K: SpatialMath>(k: &K, m: &Model, q: &[Real], i: usize) -> (r: Placement)
    requires
        m.wf(),
        i < m.joints@.len(),
        q@.len() == m.nq,
    ensures
        relative(k, *m, q@, i as int, r),
{
    proof {
        m.ranges(i as int);
    }
    let x = m.joints[i].joint_type.forward(k, q, m.q_idx[i]);
    assert(m.kind(i as int).placed(k, q@, m.q_idx@[i as int] as int, x));
    k.compose(m.joints[i].placement, x)
}

} // verus!
