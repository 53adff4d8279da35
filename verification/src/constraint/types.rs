//! Constraints and collections of them.

use vstd::prelude::*;
use crate::frames::Frame;
use crate::spatial::Placement;

verus! {

/// Kind of a rigid constraint.
#[derive(Clone, Copy, PartialEq, Eq, Structural, Debug)]
pub enum ConstraintType {
    /// Position and orientation.
    Contact6D,
    /// Position only.
    Contact3D,
}

impl ConstraintType {
    /// Number of rows that the constraint contributes.
    #[verifier::allow_in_spec]
    pub fn dim(&self) -> usize
        returns
            (match *self {
                ConstraintType::Contact6D => 6usize,
                ConstraintType::Contact3D => 3usize,
            }),
    {
        match self {
            ConstraintType::Contact6D => 6,
            ConstraintType::Contact3D => 3,
        }
    }
}

/// Frame in which errors and Jacobians are expressed.
#[derive(Clone, Copy, PartialEq, Eq, Structural, Debug)]
pub enum ReferenceFrame {
    /// The world.
    World,
    /// The first frame of the constraint.
    Local,
}

/// A rigid constraint between two frames.
#[derive(Clone, Debug)]
pub struct RigidConstraint {
    pub name: String,
    /// The frame to start from.
    pub frame1: Frame,
    /// The frame that is placed.
    pub frame2: Frame,
    /// Where the second frame has to be, as seen from the first.
    pub desired_relative_placement: Placement,
    pub constraint_type: ConstraintType,
    pub reference_frame: ReferenceFrame,
}

/// The name of a constraint between frames with the given names.
pub open spec fn joined(a: Seq<char>, b: Seq<char>) -> Seq<char> {
    a + "-"@ + b
}

fn join(a: &str, b: &str) -> (r: String)
    ensures
        r@ == joined(a@, b@),
{
    let mut r = a.to_owned();
    r.append("-");
    r.append(b);
    r
}

impl RigidConstraint {
    /// Whether this is the constraint of a kind that makes two frames coincide.
    pub open spec fn coincident(self, frame1: Frame, frame2: Frame, kind: ConstraintType) -> bool {
        &&& self.name@ == joined(frame1.name@, frame2.name@)
        &&& self.frame1 == frame1
        &&& self.frame2 == frame2
        &&& self.desired_relative_placement == Placement::identity()
        &&& self.constraint_type == kind
        &&& self.reference_frame == ReferenceFrame::World
    }

    /// Makes two frames coincide.
    pub fn pose(frame1: Frame, frame2: Frame) -> (r: Self)
        ensures
            r.coincident(frame1, frame2, ConstraintType::Contact6D),
    {
        let name = join(frame1.name.as_str(), frame2.name.as_str());
        RigidConstraint {
            name,
            frame1,
            frame2,
            desired_relative_placement: Placement::identity(),
            constraint_type: ConstraintType::Contact6D,
            reference_frame: ReferenceFrame::World,
        }
    }

    /// Makes the origins of two frames coincide.
    pub fn position(frame1: Frame, frame2: Frame) -> (r: Self)
        ensures
            r.coincident(frame1, frame2, ConstraintType::Contact3D),
    {
        let name = join(frame1.name.as_str(), frame2.name.as_str());
        RigidConstraint {
            name,
            frame1,
            frame2,
            desired_relative_placement: Placement::identity(),
            constraint_type: ConstraintType::Contact3D,
            reference_frame: ReferenceFrame::World,
        }
    }

    /// Replaces the name.
    pub fn with_name(self, name: String) -> (r: Self)
        ensures
            r == (RigidConstraint { name, ..self }),
    {
        RigidConstraint {
            name,
            frame1: self.frame1,
            frame2: self.frame2,
            desired_relative_placement: self.desired_relative_placement,
            constraint_type: self.constraint_type,
            reference_frame: self.reference_frame,
        }
    }

    /// Replaces the relative placement that is asked for.
    pub fn with_desired_placement(self, m: Placement) -> (r: Self)
        ensures
            r == (RigidConstraint { desired_relative_placement: m, ..self }),
    {
        RigidConstraint {
            name: self.name,
            frame1: self.frame1,
            frame2: self.frame2,
            desired_relative_placement: m,
            constraint_type: self.constraint_type,
            reference_frame: self.reference_frame,
        }
    }

    /// Replaces the reference frame.
    pub fn with_reference_frame(self, rf: ReferenceFrame) -> (r: Self)
        ensures
            r == (RigidConstraint { reference_frame: rf, ..self }),
    {
        RigidConstraint {
            name: self.name,
            frame1: self.frame1,
            frame2: self.frame2,
            desired_relative_placement: self.desired_relative_placement,
            constraint_type: self.constraint_type,
            reference_frame: rf,
        }
    }

    /// Number of rows of the constraint.
    pub fn dim(&self) -> (r: usize)
        ensures
            r == self.constraint_type.dim(),
    {
        self.constraint_type.dim()
    }
}

/// A collection of constraints.
#[derive(Clone, Debug)]
pub struct ConstraintModel {
    pub constraints: Vec<RigidConstraint>,
}

/// Number of rows of the first `n` constraints.
pub open spec fn rows_before(cs: Seq<RigidConstraint>, n: int) -> int
    decreases n,
{
    if n <= 0 {
        0
    } else {
        rows_before(cs, n - 1) + cs[n - 1].constraint_type.dim()
    }
}

/// There are no fewer rows of more constraints.
pub proof fn rows_are_monotone(cs: Seq<RigidConstraint>, m: int, n: int)
    requires
        0 <= m <= n,
    ensures
        0 <= rows_before(cs, m) <= rows_before(cs, n),
    decreases n,
{
    if m < n {
        rows_are_monotone(cs, m, n - 1);
    } else if n > 0 {
        rows_are_monotone(cs, m - 1, n - 1);
    }
}

impl ConstraintModel {
    /// Number of rows of all constraints.
    pub open spec fn height(self) -> int {
        rows_before(self.constraints@, self.constraints@.len() as int)
    }

    /// Whether the frames of all constraints are on joints below `n`.
    pub open spec fn fits(self, n: int) -> bool {
        forall|i: int|
            0 <= i < self.constraints@.len() ==> (#[trigger] self.constraints@[i]).frame1.parent_joint < n
                && self.constraints@[i].frame2.parent_joint < n
    }

    /// No constraints.
    pub fn new() -> (r: Self)
        ensures
            r.constraints@.len() == 0,
    {
        ConstraintModel { constraints: Vec::new() }
    }

    /// The given constraints.
    pub fn from_constraints(constraints: Vec<RigidConstraint>) -> (r: Self)
        ensures
            r.constraints == constraints,
    {
        ConstraintModel { constraints }
    }

    /// Adds a constraint behind the others.
    pub fn add(&mut self, c: RigidConstraint)
        ensures
            final(self).constraints@ == old(self).constraints@.push(c),
    {
        self.constraints.push(c);
    }

    /// Number of rows of all constraints.
    pub fn total_dim(&self) -> (r: usize)
        requires
            self.height() <= usize::MAX,
        ensures
            r == self.height(),
    {
        let mut r: usize = 0;
        for i in 0..self.constraints.len()
            invariant
                self.height() <= usize::MAX,
                r == rows_before(self.constraints@, i as int),
        {
            proof {
                rows_are_monotone(self.constraints@, i + 1, self.constraints@.len() as int);
            }
            r = r + self.constraints[i].dim();
        }
        r
    }

    /// Number of constraints.
    pub fn len(&self) -> (n: usize)
        ensures
            n == self.constraints@.len(),
    {
        self.constraints.len()
    }

    /// Tells whether there are no constraints.
    pub fn is_empty(&self) -> (r: bool)
        ensures
            r == (self.constraints@.len() == 0),
    {
        self.constraints.len() == 0
    }
}

impl Default for ConstraintModel {
    fn default() -> (r: Self)
        ensures
            r.constraints@.len() == 0,
    {
        ConstraintModel::new()
    }
}

} // verus!
