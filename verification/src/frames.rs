//! Named frames attached to bodies.

use vstd::prelude::*;
use crate::fk;
use crate::jacobian;
use crate::data::Data;
use crate::fk::forward_kinematics;
use crate::jacobian::point_jacobian;
use crate::model::Model;
use crate::number::Real;
use crate::spatial::{Motion, Placement, SpatialMath};
use crate::text::same_text;

verus! {

/// A frame at a fixed placement relative to a joint.
#[derive(Clone, Debug)]
pub struct Frame {
    pub name: String,
    /// Number of the joint that the frame moves with.
    pub parent_joint: usize,
    pub placement: Placement,
}

/// A list of frames.
#[derive(Clone, Debug)]
pub struct FrameModel {
    pub frames: Vec<Frame>,
}

impl FrameModel {
    /// No frames.
    pub fn new() -> (r: Self)
        ensures
            r.frames@.len() == 0,
    {
        FrameModel { frames: Vec::new() }
    }

    /// Adds a frame behind the others.
    pub fn add_frame(&mut self, name: &str, parent_joint: usize, placement: Placement)
        ensures
            final(self).frames@.len() == old(self).frames@.len() + 1,
            final(self).frames@.drop_last() == old(self).frames@,
            final(self).frames@.last().name@ == name@,
            final(self).frames@.last().parent_joint == parent_joint,
            final(self).frames@.last().placement == placement,
    {
        self.frames.push(Frame { name: name.to_owned(), parent_joint, placement });
        assert(self.frames@.drop_last() =~= old(self).frames@);
    }

    /// Whether frame `i` is the first with the given name.
    pub open spec fn first_named(self, name: Seq<char>, i: int) -> bool {
        &&& 0 <= i < self.frames@.len()
        &&& self.frames@[i].name@ == name
        &&& forall|j: int| 0 <= j < i ==> (#[trigger] self.frames@[j]).name@ != name
    }

    /// Whether no frame has the given name.
    pub open spec fn none_named(self, name: Seq<char>) -> bool {
        forall|j: int| 0 <= j < self.frames@.len() ==> (#[trigger] self.frames@[j]).name@ != name
    }

    /// Place of the first frame with a name.
    pub fn find_index(&self, name: &str) -> (r: Option<usize>)
        ensures
            match r {
                Some(i) => self.first_named(name@, i as int),
                None => self.none_named(name@),
            },
    {
        for i in 0..self.frames.len()
            invariant
                forall|j: int| 0 <= j < i ==> (#[trigger] self.frames@[j]).name@ != name@,
        {
            if same_text(self.frames[i].name.as_str(), name) {
                return Some(i);
            }
        }
        None
    }

    /// The first frame with a name.
    pub fn find(&self, name: &str) -> (r: Option<&Frame>)
        ensures
            match r {
                Some(f) => exists|i: int| #[trigger]
                    self.first_named(name@, i) && *f == self.frames@[i],
                None => self.none_named(name@),
            },
    {
        match self.find_index(name) {
            Some(i) => {
                assert(self.first_named(name@, i as int));
                Some(&self.frames[i])
            },
            None => None,
        }
    }

    /// Number of frames.
    pub fn len(&self) -> (n: usize)
        ensures
            n == self.frames@.len(),
    {
        self.frames.len()
    }

    /// Tells whether there are no frames.
    pub fn is_empty(&self) -> (r: bool)
        ensures
            r == (self.frames@.len() == 0),
    {
        self.frames.len() == 0
    }
}

impl Default for FrameModel {
    fn default() -> (r: Self)
        ensures
            r.frames@.len() == 0,
    {
        FrameModel::new()
    }
}

/// Placement of a frame in the world for joints that have been placed.
pub fn compute_frame_placement_from_data<K: SpatialMath>(k: &K, data: &Data, frame: &Frame) -> (r: Placement)
    requires
        frame.parent_joint < data.oMi@.len(),
    ensures
        call_ensures(K::compose, (k, data.oMi@[frame.parent_joint as int], frame.placement), r),
{
    k.compose(data.oMi[frame.parent_joint], frame.placement)
}

/// Placement of a frame in the world.
pub fn compute_frame_placement<K: SpatialMath>(k: &K, model: &Model, q: &[Real], frame: &Frame) -> (r: Placement)
    requires
        model.wf(),
        q@.len() == model.nq,
        frame.parent_joint < model.joints@.len(),
    ensures
        exists|d: Data|
            {
                &&& d.fits(*model)
                &&& #[trigger] fk::all_placed(k, *model, q@, d)
                &&& call_ensures(K::compose, (k, d.oMi@[frame.parent_joint as int], frame.placement), r)
            },
{
    let data = forward_kinematics(k, model, q);
    compute_frame_placement_from_data(k, &data, frame)
}

/// Placements of all frames in the world.
pub fn compute_all_frame_placements<K: SpatialMath>(
    k: &K,
    model: &Model,
    q: &[Real],
    frame_model: &FrameModel,
) -> (r: Vec<Placement>)
    requires
        model.wf(),
        q@.len() == model.nq,
        forall|i: int|
            0 <= i < frame_model.frames@.len() ==> (#[trigger] frame_model.frames@[i]).parent_joint
                < model.joints@.len(),
    ensures
        r@.len() == frame_model.frames@.len(),
        exists|d: Data|
            {
                &&& d.fits(*model)
                &&& #[trigger] fk::all_placed(k, *model, q@, d)
                &&& forall|i: int|
                    0 <= i < r@.len() ==> call_ensures(
                        K::compose,
                        (
                            k,
                            d.oMi@[frame_model.frames@[i].parent_joint as int],
                            frame_model.frames@[i].placement,
                        ),
                        #[trigger] r@[i],
                    )
            },
{
    let data = forward_kinematics(k, model, q);
    let mut r: Vec<Placement> = Vec::new();
    for i in 0..frame_model.frames.len()
        invariant
            data.fits(*model),
            forall|i: int|
                0 <= i < frame_model.frames@.len() ==> (#[trigger] frame_model.frames@[i]).parent_joint
                    < model.joints@.len(),
            r@.len() == i,
            forall|j: int|
                0 <= j < i ==> call_ensures(
                    K::compose,
                    (
                        k,
                        data.oMi@[frame_model.frames@[j].parent_joint as int],
                        frame_model.frames@[j].placement,
                    ),
                    #[trigger] r@[j],
                ),
    {
        assert(frame_model.frames@[i as int].parent_joint < model.joints@.len());
        r.push(compute_frame_placement_from_data(k, &data, &frame_model.frames[i]));
    }
    r
}

/// Whether `jac` is the Jacobian of the origin of a frame.
pub open spec fn frame_jacobian<K: SpatialMath>(
    k: &K,
    m: Model,
    d: Data,
    frame: Frame,
    jac: Seq<Motion>,
) -> bool {
    exists|x: Placement|
        {
            &&& #[trigger] call_ensures(
                K::compose,
                (k, d.oMi@[frame.parent_joint as int], frame.placement),
                x,
            )
            &&& jacobian::is_jacobian(k, m, d.oMi@, x.translation, frame.parent_joint as int, Seq::empty(), jac)
        }
}

/// Jacobian of the origin of a frame, for joints that have been placed.
pub fn compute_frame_jacobian_from_data<K: SpatialMath>(
    k: &K,
    model: &Model,
    data: &Data,
    frame: &Frame,
) -> (jac: Vec<Motion>)
    requires
        model.wf(),
        data.fits(*model),
        frame.parent_joint < model.joints@.len(),
    ensures
        frame_jacobian(k, *model, *data, *frame, jac@),
{
    let x = compute_frame_placement_from_data(k, data, frame);
    let none: [usize; 0] = [];
    assert(none@ =~= Seq::<usize>::empty());
    point_jacobian(k, model, &data.oMi, x.translation, frame.parent_joint, &none)
}

/// Jacobian of the origin of a frame, as seen in the world.
pub fn compute_frame_jacobian<K: SpatialMath>(k: &K, model: &Model, q: &[Real], frame: &Frame) -> (jac: Vec<
    Motion,
>)
    requires
        model.wf(),
        q@.len() == model.nq,
        frame.parent_joint < model.joints@.len(),
    ensures
        exists|d: Data|
            {
                &&& d.fits(*model)
                &&& #[trigger] fk::all_placed(k, *model, q@, d)
                &&& frame_jacobian(k, *model, d, *frame, jac@)
            },
{
    let data = forward_kinematics(k, model, q);
    compute_frame_jacobian_from_data(k, model, &data, frame)
}

/// One frame for each link, at the origin of the link and under its name.
pub fn frames_from_links(model: &Model) -> (r: FrameModel)
    ensures
        r.frames@.len() == model.link_names@.len(),
        forall|i: int|
            0 <= i < r.frames@.len() ==> {
                let f = #[trigger] r.frames@[i];
                f.name@ == model.link_names@[i]@ && f.parent_joint == i && f.placement
                    == Placement::identity()
            },
{
    let mut r = FrameModel::new();
    for i in 0..model.link_names.len()
        invariant
            r.frames@.len() == i,
            forall|j: int|
                0 <= j < i ==> {
                    let f = #[trigger] r.frames@[j];
                    f.name@ == model.link_names@[j]@ && f.parent_joint == j && f.placement
                        == Placement::identity()
                },
    {
        let ghost before = r.frames@;
        r.add_frame(model.link_names[i].as_str(), i, Placement::identity());
        assert forall|j: int| 0 <= j < i + 1 implies ({
            let f = #[trigger] r.frames@[j];
            f.name@ == model.link_names@[j]@ && f.parent_joint == j && f.placement == Placement::identity()
        }) by {
            if j < i {
                assert(r.frames@.drop_last()[j] == before[j]);
            }
        }
    }
    r
}

} // verus!
