//! Shapes attached to joints.

use vstd::prelude::*;
use crate::mesh::MeshData;
use crate::number::{Real, Vector3};
use crate::spatial::Placement;
use crate::text::same_text;

verus! {

/// A shape, or a mesh by file name.
#[derive(Clone, Debug)]
pub enum GeometryShape {
    /// Box with the given full side lengths.
    Box { x: Real, y: Real, z: Real },
    Sphere { radius: Real },
    /// Cylinder along z.
    Cylinder { radius: Real, length: Real },
    /// Cylinder along z with half spheres at its ends.
    Capsule { radius: Real, length: Real },
    /// Cone along z.
    Cone { radius: Real, length: Real },
    /// Mesh in a file.
    Mesh { filename: String, scale: Vector3 },
}

/// A shape attached to a joint.
#[derive(Clone, Debug)]
pub struct GeometryObject {
    pub name: String,
    /// Number of the joint; zero is the world.
    pub parent_joint: usize,
    /// Placement in the frame of the joint.
    pub placement: Placement,
    pub shape: GeometryShape,
    pub mesh_path: Option<String>,
    pub mesh_scale: Option<Vector3>,
    /// The mesh, once it has been loaded.
    pub mesh_data: Option<MeshData>,
}

/// A list of shapes.
#[derive(Clone, Debug)]
pub struct GeometryModel {
    pub objects: Vec<GeometryObject>,
}

/// Numbers of the objects among the first `n` that are attached to a joint.
pub open spec fn attached(objects: Seq<GeometryObject>, joint: int, n: int) -> Seq<usize>
    decreases n,
{
    if n <= 0 {
        Seq::empty()
    } else if objects[n - 1].parent_joint == joint {
        attached(objects, joint, n - 1).push((n - 1) as usize)
    } else {
        attached(objects, joint, n - 1)
    }
}

impl GeometryModel {
    /// No shapes.
    pub fn new() -> (r: Self)
        ensures
            r.objects@.len() == 0,
    {
        GeometryModel { objects: Vec::new() }
    }

    /// Adds an object behind the others and gives its number.
    pub fn add(&mut self, obj: GeometryObject) -> (i: usize)
        ensures
            i == old(self).objects@.len(),
            final(self).objects@ == old(self).objects@.push(obj),
    {
        let i: usize = self.objects.len();
        self.objects.push(obj);
        i
    }

    /// Number of objects.
    pub fn num_objects(&self) -> (n: usize)
        ensures
            n == self.objects@.len(),
    {
        self.objects.len()
    }

    /// Number of the first object with a name.
    pub fn find_by_name(&self, name: &str) -> (r: Option<usize>)
        ensures
            match r {
                Some(i) => {
                    &&& i < self.objects@.len()
                    &&& self.objects@[i as int].name@ == name@
                    &&& forall|j: int| 0 <= j < i ==> (#[trigger] self.objects@[j]).name@ != name@
                },
                None => forall|j: int|
                    0 <= j < self.objects@.len() ==> (#[trigger] self.objects@[j]).name@ != name@,
            },
    {
        for i in 0..self.objects.len()
            invariant
                forall|j: int| 0 <= j < i ==> (#[trigger] self.objects@[j]).name@ != name@,
        {
            if same_text(self.objects[i].name.as_str(), name) {
                return Some(i);
            }
        }
        None
    }

    /// Numbers of the objects attached to a joint, in order.
    pub fn objects_for_joint(&self, joint_idx: usize) -> (r: Vec<usize>)
        ensures
            r@ == attached(self.objects@, joint_idx as int, self.objects@.len() as int),
    {
        let mut r: Vec<usize> = Vec::new();
        for i in 0..self.objects.len()
            invariant
                r@ == attached(self.objects@, joint_idx as int, i as int),
        {
            if self.objects[i].parent_joint == joint_idx {
                r.push(i);
            }
        }
        r
    }
}

impl Default for GeometryModel {
    fn default() -> (r: Self)
        ensures
            r.objects@.len() == 0,
    {
        GeometryModel::new()
    }
}

/// An object is listed for a joint exactly if it is attached to it.
pub proof fn attached_lists_exactly(objects: Seq<GeometryObject>, joint: int, n: int, i: usize)
    requires
        0 <= n <= objects.len(),
        n <= usize::MAX,
    ensures
        attached(objects, joint, n).contains(i) <==> i < n && objects[i as int].parent_joint == joint,
    decreases n,
{
    if n > 0 {
        attached_lists_exactly(objects, joint, n - 1, i);
        let a = attached(objects, joint, n - 1);
        let b = attached(objects, joint, n);
        if a.contains(i) {
            let k = choose|k: int| 0 <= k < a.len() && a[k] == i;
            assert(b[k] == i);
        }
        if i == n - 1 && objects[n - 1].parent_joint == joint {
            assert(b[a.len() as int] == i);
        }
    }
}

} // verus!
