//! Triangle meshes with materials.

use vstd::prelude::*;
use crate::number::{Point2, Point3, Real, Vector3};

verus! {

/// Surface appearance of a part of a mesh.
#[derive(Debug)]
pub struct Material {
    pub name: String,
    pub ambient: [Real; 4],
    pub diffuse: [Real; 4],
    pub specular: [Real; 4],
    pub emission: [Real; 4],
    pub shininess: Real,
    /// Path of the diffuse texture, if there is one.
    pub texture_diffuse: Option<String>,
}

/// A run of triangles that share a material.
#[derive(Debug)]
pub struct SubMesh {
    pub name: String,
    pub tri_start: usize,
    pub tri_count: usize,
    pub material_index: Option<usize>,
}

/// An indexed triangle mesh.
#[derive(Debug)]
pub struct MeshData {
    pub vertices: Vec<Point3>,
    pub indices: Vec<[u32; 3]>,
    pub face_normals: Vec<Vector3>,
    /// One per vertex, or empty.
    pub vertex_normals: Vec<Vector3>,
    /// One per vertex, or empty.
    pub texcoords: Vec<Point2>,
    pub materials: Vec<Material>,
    pub submeshes: Vec<SubMesh>,
}

/// Mathematical value of a [`Material`].
#[verifier::ext_equal]
pub struct MaterialView {
    pub name: Seq<char>,
    pub ambient: [Real; 4],
    pub diffuse: [Real; 4],
    pub specular: [Real; 4],
    pub emission: [Real; 4],
    pub shininess: Real,
    pub texture_diffuse: Option<Seq<char>>,
}

/// Mathematical value of a [`SubMesh`].
#[verifier::ext_equal]
pub struct SubMeshView {
    pub name: Seq<char>,
    pub tri_start: usize,
    pub tri_count: usize,
    pub material_index: Option<usize>,
}

/// Mathematical value of a [`MeshData`].
#[verifier::ext_equal]
pub struct MeshView {
    pub vertices: Seq<Point3>,
    pub indices: Seq<[u32; 3]>,
    pub face_normals: Seq<Vector3>,
    pub vertex_normals: Seq<Vector3>,
    pub texcoords: Seq<Point2>,
    pub materials: Seq<MaterialView>,
    pub submeshes: Seq<SubMeshView>,
}

/// The characters of an optional text.
pub open spec fn text_view(t: Option<String>) -> Option<Seq<char>> {
    match t {
        Some(s) => Some(s@),
        None => None,
    }
}

impl View for Material {
    type V = MaterialView;

    open spec fn view(&self) -> MaterialView {
        MaterialView {
            name: self.name@,
            ambient: self.ambient,
            diffuse: self.diffuse,
            specular: self.specular,
            emission: self.emission,
            shininess: self.shininess,
            texture_diffuse: text_view(self.texture_diffuse),
        }
    }
}

impl View for SubMesh {
    type V = SubMeshView;

    open spec fn view(&self) -> SubMeshView {
        SubMeshView {
            name: self.name@,
            tri_start: self.tri_start,
            tri_count: self.tri_count,
            material_index: self.material_index,
        }
    }
}

/// Values of a list of materials.
pub open spec fn materials_view(m: Seq<Material>) -> Seq<MaterialView> {
    m.map_values(|x: Material| x@)
}

/// Values of a list of submeshes.
pub open spec fn submeshes_view(m: Seq<SubMesh>) -> Seq<SubMeshView> {
    m.map_values(|x: SubMesh| x@)
}

impl View for MeshData {
    type V = MeshView;

    open spec fn view(&self) -> MeshView {
        MeshView {
            vertices: self.vertices@,
            indices: self.indices@,
            face_normals: self.face_normals@,
            vertex_normals: self.vertex_normals@,
            texcoords: self.texcoords@,
            materials: materials_view(self.materials@),
            submeshes: submeshes_view(self.submeshes@),
        }
    }
}

/// Whether every corner of every triangle is one of `n` vertices.
pub open spec fn corners_within(tris: Seq<[u32; 3]>, n: nat) -> bool {
    forall|i: int, c: int| 0 <= i < tris.len() && 0 <= c < 3 ==> (#[trigger] tris[i][c]) < n
}

/// Whether a triangle has two equal corners.
pub open spec fn degenerate(t: [u32; 3]) -> bool {
    t[0] == t[1] || t[1] == t[2] || t[0] == t[2]
}

impl MeshView {
    /// Whether the triangles refer to vertices of the mesh.
    pub open spec fn wf(self) -> bool {
        &&& corners_within(self.indices, self.vertices.len())
        &&& self.vertices.len() <= u32::MAX
    }
}

/// Smallest box around the first `n` points: least and greatest coordinates.
pub open spec fn bounds(v: Seq<Point3>, n: int) -> (Point3, Point3)
    decreases n,
{
    if n <= 1 {
        (v[0], v[0])
    } else {
        let (lo, hi) = bounds(v, n - 1);
        let p = v[n - 1];
        (
            Point3 { x: lo.x.smaller(p.x), y: lo.y.smaller(p.y), z: lo.z.smaller(p.z) },
            Point3 { x: hi.x.larger(p.x), y: hi.y.larger(p.y), z: hi.z.larger(p.z) },
        )
    }
}

impl Clone for Material {
    fn clone(&self) -> (r: Self)
        ensures
            r@ == self@,
    {
        Material {
            name: self.name.clone(),
            ambient: self.ambient,
            diffuse: self.diffuse,
            specular: self.specular,
            emission: self.emission,
            shininess: self.shininess,
            texture_diffuse: match &self.texture_diffuse {
                Some(t) => Some(t.clone()),
                None => None,
            },
        }
    }
}

impl Clone for SubMesh {
    fn clone(&self) -> (r: Self)
        ensures
            r@ == self@,
    {
        SubMesh {
            name: self.name.clone(),
            tri_start: self.tri_start,
            tri_count: self.tri_count,
            material_index: self.material_index,
        }
    }
}

/// Copies a list of materials.
pub fn clone_materials(m: &Vec<Material>) -> (r: Vec<Material>)
    ensures
        materials_view(r@) == materials_view(m@),
{
    let mut r: Vec<Material> = Vec::new();
    for i in 0..m.len()
        invariant
            r.len() == i,
            forall|j: int| 0 <= j < i ==> (#[trigger] r@[j])@ == m@[j]@,
    {
        r.push(m[i].clone());
    }
    assert(materials_view(r@) =~= materials_view(m@));
    r
}

/// Copies a list of submeshes.
pub fn clone_submeshes(m: &Vec<SubMesh>) -> (r: Vec<SubMesh>)
    ensures
        submeshes_view(r@) == submeshes_view(m@),
{
    let mut r: Vec<SubMesh> = Vec::new();
    for i in 0..m.len()
        invariant
            r.len() == i,
            forall|j: int| 0 <= j < i ==> (#[trigger] r@[j])@ == m@[j]@,
    {
        r.push(m[i].clone());
    }
    assert(submeshes_view(r@) =~= submeshes_view(m@));
    r
}

/// Copies a list of plain values.
pub fn copy_list<T: Copy>(v: &Vec<T>) -> (r: Vec<T>)
    ensures
        r@ == v@,
{
    let mut r: Vec<T> = Vec::new();
    for i in 0..v.len()
        invariant
            r@ == v@.take(i as int),
    {
        r.push(v[i]);
        assert(v@.take(i as int).push(v@[i as int]) =~= v@.take(i + 1));
    }
    assert(v@.take(v.len() as int) =~= v@);
    r
}

impl Clone for MeshData {
    fn clone(&self) -> (r: Self)
        ensures
            r@ == self@,
    {
        MeshData {
            vertices: copy_list(&self.vertices),
            indices: copy_list(&self.indices),
            face_normals: copy_list(&self.face_normals),
            vertex_normals: copy_list(&self.vertex_normals),
            texcoords: copy_list(&self.texcoords),
            materials: clone_materials(&self.materials),
            submeshes: clone_submeshes(&self.submeshes),
        }
    }
}

impl MeshData {
    pub fn num_vertices(&self) -> (n: usize)
        ensures
            n == self@.vertices.len(),
    {
        self.vertices.len()
    }

    pub fn num_triangles(&self) -> (n: usize)
        ensures
            n == self@.indices.len(),
    {
        self.indices.len()
    }

    pub fn has_vertex_normals(&self) -> (r: bool)
        ensures
            r == (self@.vertex_normals.len() > 0),
    {
        self.vertex_normals.len() > 0
    }

    pub fn has_texcoords(&self) -> (r: bool)
        ensures
            r == (self@.texcoords.len() > 0),
    {
        self.texcoords.len() > 0
    }

    /// Smallest axis-aligned box around the vertices.
    pub fn aabb(&self) -> (r: Option<(Point3, Point3)>)
        ensures
            r == (if self@.vertices.len() == 0 {
                None
            } else {
                Some(bounds(self@.vertices, self@.vertices.len() as int))
            }),
    {
        if self.vertices.len() == 0 {
            return None;
        }
        let mut lo: Point3 = self.vertices[0];
        let mut hi: Point3 = self.vertices[0];
        for i in 1..self.vertices.len()
            invariant
                self.vertices.len() > 0,
                (lo, hi) == bounds(self.vertices@, i as int),
        {
            let p = self.vertices[i];
            lo = Point3 { x: lo.x.min(p.x), y: lo.y.min(p.y), z: lo.z.min(p.z) };
            hi = Point3 { x: hi.x.max(p.x), y: hi.y.max(p.y), z: hi.z.max(p.z) };
        }
        Some((lo, hi))
    }
}

/// Every vertex lies in the box around the vertices, when all coordinates are numbers.
pub proof fn bounds_enclose(v: Seq<Point3>, n: int, k: int)
    requires
        0 <= k < n <= v.len(),
        forall|i: int| 0 <= i < n ==> !(#[trigger] v[i]).x.nan() && !v[i].y.nan() && !v[i].z.nan(),
    ensures
        bounds(v, n).0.x.at_most(v[k].x) && v[k].x.at_most(bounds(v, n).1.x),
        bounds(v, n).0.y.at_most(v[k].y) && v[k].y.at_most(bounds(v, n).1.y),
        bounds(v, n).0.z.at_most(v[k].z) && v[k].z.at_most(bounds(v, n).1.z),
    decreases n,
{
    if n > 1 {
        assert(!v[n - 1].x.nan());
        if k < n - 1 {
            bounds_enclose(v, n - 1, k);
        } else {
            bounds_enclose(v, n - 1, 0);
        }
    } else {
        assert(!v[k].x.nan());
    }
}

} // verus!
