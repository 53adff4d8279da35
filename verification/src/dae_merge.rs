//! Putting the geometries of a Collada document into one mesh.

use vstd::prelude::*;
use crate::dae_geom;
use crate::dae_mesh;
use crate::interner;
use crate::mesh;
use crate::numerics;
use crate::table;
use crate::dae_geom::{RawGeometry, RawView};
use crate::dae_mesh::Corner;
use crate::dae_read::Texts;
use crate::interner::{Interner, Triple};
use crate::mesh::{Material, MaterialView, MeshData, MeshView, SubMesh, SubMeshView};
use crate::number::{Point2, Point3, Vector3};
use crate::numerics::{compute_face_normal, MeshNumerics};
use crate::table::Table;
use crate::text::same_text;

verus! {

/// A mesh without the normals of its triangles.
#[verifier::ext_equal]
pub struct Merged {
    pub vertices: Seq<Point3>,
    pub normals: Seq<Vector3>,
    pub texcoords: Seq<Point2>,
    pub indices: Seq<[u32; 3]>,
    pub materials: Seq<MaterialView>,
    pub submeshes: Seq<SubMeshView>,
}

/// What is known about materials.
pub struct Looks {
    /// Material by effect.
    pub effects: Seq<(Seq<char>, MaterialView)>,
    /// Effect by material.
    pub material_effects: Texts,
    /// Material by symbol, for each instance of a geometry.
    pub instances: Seq<(Seq<char>, Texts)>,
}

/// The material that a symbol stands for in a geometry: the one that the last instance of the
/// geometry binds to it, or the one of its name.
pub open spec fn material_of(
    instances: Seq<(Seq<char>, Texts)>,
    geometry: Seq<char>,
    symbol: Seq<char>,
) -> Seq<char> {
    match table::lookup(instances, geometry) {
        Some(bindings) => match table::lookup(bindings, symbol) {
            Some(m) => m,
            None => symbol,
        },
        None => symbol,
    }
}

/// First material from the `i`-th on with the given name.
pub open spec fn named_from(materials: Seq<MaterialView>, name: Seq<char>, i: int) -> Option<int>
    decreases materials.len() - i,
{
    if i >= materials.len() {
        None
    } else if materials[i].name == name {
        Some(i)
    } else {
        named_from(materials, name, i + 1)
    }
}

/// What the effect of a material describes.
pub open spec fn appearance(looks: Looks, name: Seq<char>) -> Option<MaterialView> {
    match table::lookup(looks.material_effects, name) {
        Some(effect) => table::lookup(looks.effects, effect),
        None => None,
    }
}

/// The materials once a material is used: it is added under its name unless it is
/// there or its effect is not known.
pub open spec fn materials_with(materials: Seq<MaterialView>, looks: Looks, name: Seq<char>) -> Seq<
    MaterialView,
> {
    match named_from(materials, name, 0) {
        Some(_) => materials,
        None => match appearance(looks, name) {
            Some(m) => materials.push(MaterialView { name, ..m }),
            None => materials,
        },
    }
}

/// Place of a material once it is used.
pub open spec fn material_place(materials: Seq<MaterialView>, looks: Looks, name: Seq<char>) -> Option<usize> {
    match named_from(materials, name, 0) {
        Some(i) => Some(i as usize),
        None => match appearance(looks, name) {
            Some(_) => Some(materials.len() as usize),
            None => None,
        },
    }
}

/// A corner as a triple of words.
pub open spec fn corner_code(c: Corner) -> Triple {
    (c.0 as u64, c.1 as u64, c.2 as u64)
}

/// The corners of a geometry as triples of words.
pub open spec fn corner_keys(g: RawView) -> Seq<Triple> {
    g.corners.map_values(|c: Corner| corner_code(c))
}

/// The different corners of a geometry in order of first occurrence.
pub open spec fn different_corners(g: RawView) -> Seq<Triple> {
    interner::distinct(corner_keys(g), g.corners.len() as int)
}

/// The position of a corner; the origin where it has none.
pub open spec fn position_at(g: RawView, k: Triple) -> Point3 {
    if k.0 < g.vertices.len() {
        g.vertices[k.0 as int]
    } else {
        Point3::origin()
    }
}

/// The normal of a corner; zero where it has none.
pub open spec fn normal_at(g: RawView, k: Triple) -> Vector3 {
    if k.1 < g.normals.len() {
        g.normals[k.1 as int]
    } else {
        Vector3::zero()
    }
}

/// The texture point of a corner; the origin where it has none.
pub open spec fn texcoord_at(g: RawView, k: Triple) -> Point2 {
    if k.2 < g.texcoords.len() {
        g.texcoords[k.2 as int]
    } else {
        Point2::origin()
    }
}

/// The vertex of a corner: the vertices before the geometry, then its place among
/// the different corners.
pub open spec fn vertex_of(g: RawView, base: nat, c: int) -> u32 {
    ((base + different_corners(g).index_of(corner_keys(g)[c])) as usize) as u32
}

/// The triangles of a geometry.
pub open spec fn triangles_of(g: RawView, base: nat) -> Seq<[u32; 3]> {
    Seq::new(
        (g.corners.len() / 3) as nat,
        |t: int| [
            vertex_of(g, base, 3 * t),
            vertex_of(g, base, 3 * t + 1),
            vertex_of(g, base, 3 * t + 2),
        ],
    )
}

/// The mesh with a geometry added: one vertex for each different corner, one
/// submesh if there are triangles.
pub open spec fn with_geometry(
    s: Merged,
    g: RawView,
    looks: Looks,
    any_normals: bool,
    any_texcoords: bool,
) -> Merged {
    let d = different_corners(g);
    let tris = triangles_of(g, s.vertices.len());
    let name = match g.material_symbol {
        Some(symbol) => Some(material_of(looks.instances, g.id, symbol)),
        None => None,
    };
    Merged {
        vertices: s.vertices + d.map_values(|k: Triple| position_at(g, k)),
        normals: if any_normals {
            s.normals + d.map_values(|k: Triple| normal_at(g, k))
        } else {
            s.normals
        },
        texcoords: if any_texcoords {
            s.texcoords + d.map_values(|k: Triple| texcoord_at(g, k))
        } else {
            s.texcoords
        },
        indices: s.indices + tris,
        materials: match name {
            Some(n) => materials_with(s.materials, looks, n),
            None => s.materials,
        },
        submeshes: if tris.len() > 0 {
            s.submeshes.push(
                SubMeshView {
                    name: g.id,
                    tri_start: s.indices.len() as usize,
                    tri_count: tris.len() as usize,
                    material_index: match name {
                        Some(n) => material_place(s.materials, looks, n),
                        None => None,
                    },
                },
            )
        } else {
            s.submeshes
        },
    }
}

/// The mesh of the first `n` geometries.
pub open spec fn merged_from(
    g: Seq<RawView>,
    looks: Looks,
    any_normals: bool,
    any_texcoords: bool,
    n: int,
) -> Merged
    decreases n,
{
    if n <= 0 {
        Merged {
            vertices: Seq::empty(),
            normals: Seq::empty(),
            texcoords: Seq::empty(),
            indices: Seq::empty(),
            materials: Seq::empty(),
            submeshes: Seq::empty(),
        }
    } else {
        with_geometry(
            merged_from(g, looks, any_normals, any_texcoords, n - 1),
            g[n - 1],
            looks,
            any_normals,
            any_texcoords,
        )
    }
}

pub open spec fn has_normals(g: Seq<RawView>) -> bool {
    exists|i: int| 0 <= i < g.len() && (#[trigger] g[i]).normals.len() > 0
}

pub open spec fn has_texcoords(g: Seq<RawView>) -> bool {
    exists|i: int| 0 <= i < g.len() && (#[trigger] g[i]).texcoords.len() > 0
}

/// The mesh of a list of geometries.
pub open spec fn merged(g: Seq<RawView>, looks: Looks) -> Merged {
    merged_from(g, looks, has_normals(g), has_texcoords(g), g.len() as int)
}

/// Whether `r` is the merged mesh with the unit normals of its triangles.
pub open spec fn completed<K: MeshNumerics>(k: &K, m: Merged, r: MeshView) -> bool {
    &&& r.vertices == m.vertices
    &&& r.vertex_normals == m.normals
    &&& r.texcoords == m.texcoords
    &&& r.indices == m.indices
    &&& r.materials == m.materials
    &&& r.submeshes == m.submeshes
    &&& with_face_normals(k, r.vertices, r.indices, r.face_normals)
}

/// Whether `normals` are the unit normals of the triangles, along z where the area vanishes.
pub open spec fn with_face_normals<K: MeshNumerics>(
    k: &K,
    vertices: Seq<Point3>,
    indices: Seq<[u32; 3]>,
    normals: Seq<Vector3>,
) -> bool {
    &&& normals.len() == indices.len()
    &&& forall|i: int|
        0 <= i < indices.len() ==> numerics::face_normal(
            k,
            vertices[indices[i][0] as int],
            vertices[indices[i][1] as int],
            vertices[indices[i][2] as int],
            Vector3::unit_z(),
            #[trigger] normals[i],
        )
}

fn find_material(instances: &Table<Table<String>>, geometry: &str, symbol: &str) -> (r: String)
    ensures
        r@ == material_of(instances@, geometry@, symbol@),
{
    if let Some(bindings) = instances.get(geometry) {
        if let Some(m) = bindings.get(symbol) {
            return m.clone();
        }
    }
    symbol.to_owned()
}

/// Place of a material, which is added under its name unless it is there or its
/// effect is not known.
fn use_material(
    materials: &mut Vec<Material>,
    effects: &Table<Material>,
    material_effects: &Table<String>,
    name: &str,
    Ghost(looks): Ghost<Looks>,
) -> (r: Option<usize>)
    requires
        looks.effects == effects@,
        looks.material_effects == material_effects@,
    ensures
        mesh::materials_view(final(materials)@) == materials_with(mesh::materials_view(old(materials)@), looks, name@),
        r == material_place(mesh::materials_view(old(materials)@), looks, name@),
{
    let ghost before = mesh::materials_view(materials@);
    for i in 0..materials.len()
        invariant
            before == mesh::materials_view(materials@),
            *materials == *old(materials),
            named_from(before, name@, 0) == named_from(before, name@, i as int),
    {
        assert(before[i as int] == materials@[i as int]@);
        if same_text(materials[i].name.as_str(), name) {
            return Some(i);
        }
    }
    let effect = match material_effects.get(name) {
        Some(e) => e,
        None => {
            return None;
        },
    };
    match effects.get(effect.as_str()) {
        Some(m) => {
            let i: usize = materials.len();
            let mut x = m.clone();
            x.name = name.to_owned();
            materials.push(x);
            assert(mesh::materials_view(materials@) =~= before.push(x@));
            Some(i)
        },
        None => None,
    }
}

/// Numbers of the corners among the different corners, and these.
fn number_corners(g: &RawGeometry) -> (r: (Vec<usize>, Interner))
    ensures
        r.1.wf(),
        r.1@ == different_corners(g@),
        r.0@.len() == 3 * g.triangles@.len(),
        forall|c: int|
            0 <= c < r.0@.len() ==> (#[trigger] r.0@[c]) < r.1@.len() && r.1@[r.0@[c] as int]
                == corner_keys(g@)[c],
{
    let mut table = Interner::new(g.triangles.len());
    let mut numbers: Vec<usize> = Vec::new();
    let ghost keys = corner_keys(g@);
    for t in 0..g.triangles.len()
        invariant
            keys == corner_keys(g@),
            keys.len() == 3 * g.triangles@.len(),
            table.wf(),
            table@ == interner::distinct(keys, 3 * t),
            numbers@.len() == 3 * t,
            forall|c: int|
                0 <= c < numbers@.len() ==> (#[trigger] numbers@[c]) < table@.len()
                    && table@[numbers@[c] as int] == keys[c],
    {
        let tri: [usize; 9] = g.triangles[t];
        for k in 0..3usize
            invariant
                t < g.triangles@.len(),
                tri == g.triangles@[t as int],
                keys == corner_keys(g@),
                keys.len() == 3 * g.triangles@.len(),
                table.wf(),
                table@ == interner::distinct(keys, 3 * t + k),
                numbers@.len() == 3 * t + k,
                forall|c: int|
                    0 <= c < numbers@.len() ==> (#[trigger] numbers@[c]) < table@.len()
                        && table@[numbers@[c] as int] == keys[c],
        {
            let ghost t0 = table@;
            let ghost n0 = numbers@;
            let key: Triple = (tri[3 * k] as u64, tri[3 * k + 1] as u64, tri[3 * k + 2] as u64);
            proof {
                let c = 3 * t + k;
                assert(c / 3 == t && c % 3 == k);
                assert(g@.corners[c] == dae_mesh::corner_in(tri, k as int));
                assert(key == keys[c]);
            }
            let n: usize = table.intern(key);
            numbers.push(n);
            assert forall|c: int| 0 <= c < numbers@.len() implies (#[trigger] numbers@[c]) < table@.len()
                && table@[numbers@[c] as int] == keys[c] by {
                if c < n0.len() {
                    assert(numbers@[c] == n0[c]);
                    assert(table@[n0[c] as int] == t0[n0[c] as int]);
                }
            }
        }
    }
    (numbers, table)
}

proof fn truncation_shrinks(x: usize)
    ensures
        (x as u32) as int <= x,
{
    assert((x as u32) as usize <= x) by (bit_vector);
}

/// A mesh that geometries are added to.
struct Merger {
    vertices: Vec<Point3>,
    normals: Vec<Vector3>,
    texcoords: Vec<Point2>,
    indices: Vec<[u32; 3]>,
    face_normals: Vec<Vector3>,
    materials: Vec<Material>,
    submeshes: Vec<SubMesh>,
}

impl Merger {
    spec fn merged(self) -> Merged {
        Merged {
            vertices: self.vertices@,
            normals: self.normals@,
            texcoords: self.texcoords@,
            indices: self.indices@,
            materials: mesh::materials_view(self.materials@),
            submeshes: mesh::submeshes_view(self.submeshes@),
        }
    }

    spec fn sound<K: MeshNumerics>(self, k: &K) -> bool {
        &&& mesh::corners_within(self.indices@, self.vertices@.len())
        &&& with_face_normals(k, self.vertices@, self.indices@, self.face_normals@)
    }

    /// Adds a vertex for each different corner.
    fn add_vertices(&mut self, g: &RawGeometry, table: &Interner, any_normals: bool, any_texcoords: bool)
        requires
            table.wf(),
        ensures
            final(self).vertices@ == old(self).vertices@ + table@.map_values(
                |k: Triple| position_at(g@, k),
            ),
            final(self).normals@ == (if any_normals {
                old(self).normals@ + table@.map_values(|k: Triple| normal_at(g@, k))
            } else {
                old(self).normals@
            }),
            final(self).texcoords@ == (if any_texcoords {
                old(self).texcoords@ + table@.map_values(|k: Triple| texcoord_at(g@, k))
            } else {
                old(self).texcoords@
            }),
            final(self).indices == old(self).indices,
            final(self).face_normals == old(self).face_normals,
            final(self).materials == old(self).materials,
            final(self).submeshes == old(self).submeshes,
    {
        let ghost s = *self;
        let ghost ps = table@.map_values(|k: Triple| position_at(g@, k));
        let ghost ns = table@.map_values(|k: Triple| normal_at(g@, k));
        let ghost ts = table@.map_values(|k: Triple| texcoord_at(g@, k));
        let n: usize = table.len();
        assert(s.vertices@ + ps.take(0) =~= s.vertices@);
        assert(s.normals@ + ns.take(0) =~= s.normals@);
        assert(s.texcoords@ + ts.take(0) =~= s.texcoords@);
        for i in 0..n
            invariant
                n == table@.len(),
                ps == table@.map_values(|k: Triple| position_at(g@, k)),
                ns == table@.map_values(|k: Triple| normal_at(g@, k)),
                ts == table@.map_values(|k: Triple| texcoord_at(g@, k)),
                self.vertices@ == s.vertices@ + ps.take(i as int),
                self.normals@ == (if any_normals {
                    s.normals@ + ns.take(i as int)
                } else {
                    s.normals@
                }),
                self.texcoords@ == (if any_texcoords {
                    s.texcoords@ + ts.take(i as int)
                } else {
                    s.texcoords@
                }),
                self.indices == s.indices,
                self.face_normals == s.face_normals,
                self.materials == s.materials,
                self.submeshes == s.submeshes,
        {
            let k: Triple = table.key(i);
            let p = if k.0 < g.vertices.len() as u64 { g.vertices[k.0 as usize] } else { Point3::origin() };
            self.vertices.push(p);
            assert(s.vertices@ + ps.take(i + 1) =~= (s.vertices@ + ps.take(i as int)).push(p));
            if any_normals {
                let v = if k.1 < g.normals.len() as u64 {
                    g.normals[k.1 as usize]
                } else {
                    Vector3::zero()
                };
                self.normals.push(v);
                assert(s.normals@ + ns.take(i + 1) =~= (s.normals@ + ns.take(i as int)).push(v));
            }
            if any_texcoords {
                let u = if k.2 < g.texcoords.len() as u64 {
                    g.texcoords[k.2 as usize]
                } else {
                    Point2::origin()
                };
                self.texcoords.push(u);
                assert(s.texcoords@ + ts.take(i + 1) =~= (s.texcoords@ + ts.take(i as int)).push(u));
            }
        }
        assert(ps.take(n as int) =~= ps);
        assert(ns.take(n as int) =~= ns);
        assert(ts.take(n as int) =~= ts);
    }

    /// Adds the triangles with their normals.
    fn add_triangles<K: MeshNumerics>(
        &mut self,
        k: &K,
        g: &RawGeometry,
        numbers: &Vec<usize>,
        base: usize,
    )
        requires
            old(self).sound(k),
            numbers@.len() == 3 * g.triangles@.len(),
            forall|c: int|
                0 <= c < numbers@.len() ==> base + (#[trigger] numbers@[c]) < old(self).vertices@.len(),
            forall|c: int|
                0 <= c < numbers@.len() ==> ((base + #[trigger] numbers@[c]) as usize) as u32 == vertex_of(
                    g@,
                    base as nat,
                    c,
                ),
        ensures
            final(self).sound(k),
            final(self).vertices == old(self).vertices,
            final(self).normals == old(self).normals,
            final(self).texcoords == old(self).texcoords,
            final(self).materials == old(self).materials,
            final(self).submeshes == old(self).submeshes,
            final(self).indices@ == old(self).indices@ + triangles_of(g@, base as nat),
    {
        let ghost s = *self;
        let ghost tris = triangles_of(g@, base as nat);
        assert(tris.len() == g.triangles@.len());
        assert(s.indices@ + tris.take(0) =~= s.indices@);
        for t in 0..g.triangles.len()
            invariant
                tris == triangles_of(g@, base as nat),
                tris.len() == g.triangles@.len(),
                numbers@.len() == 3 * g.triangles@.len(),
                forall|c: int|
                    0 <= c < numbers@.len() ==> base + (#[trigger] numbers@[c]) < s.vertices@.len(),
                forall|c: int|
                    0 <= c < numbers@.len() ==> ((base + #[trigger] numbers@[c]) as usize) as u32
                        == vertex_of(g@, base as nat, c),
                self.sound(k),
                self.vertices == s.vertices,
                self.normals == s.normals,
                self.texcoords == s.texcoords,
                self.materials == s.materials,
                self.submeshes == s.submeshes,
                self.indices@ == s.indices@ + tris.take(t as int),
        {
            let ghost before = *self;
            assert(numbers@.len() == numbers.len());
            assert(base + numbers@[3 * t] < s.vertices@.len());
            assert(base + numbers@[3 * t + 1] < s.vertices@.len());
            assert(base + numbers@[3 * t + 2] < s.vertices@.len());
            assert(self.vertices@.len() == self.vertices.len());
            let x: usize = base + numbers[3 * t];
            let y: usize = base + numbers[3 * t + 1];
            let z: usize = base + numbers[3 * t + 2];
            proof {
                truncation_shrinks(x);
                truncation_shrinks(y);
                truncation_shrinks(z);
            }
            let tri: [u32; 3] = [x as u32, y as u32, z as u32];
            let normal = compute_face_normal(
                k,
                self.vertices[tri[0] as usize],
                self.vertices[tri[1] as usize],
                self.vertices[tri[2] as usize],
                Vector3::unit_z(),
            );
            self.face_normals.push(normal);
            self.indices.push(tri);
            proof {
                assert(tri =~= tris[t as int]);
                assert(s.indices@ + tris.take(t + 1) =~= (s.indices@ + tris.take(t as int)).push(tri));
                assert forall|i: int, c: int| 0 <= i < self.indices@.len() && 0 <= c < 3 implies (
                #[trigger] self.indices@[i][c]) < self.vertices@.len() by {
                    if i < before.indices@.len() {
                        assert(self.indices@[i][c] == before.indices@[i][c]);
                    } else {
                        assert(c == 0 || c == 1 || c == 2);
                    }
                }
                assert forall|i: int| 0 <= i < self.indices@.len() implies numerics::face_normal(
                    k,
                    self.vertices@[self.indices@[i][0] as int],
                    self.vertices@[self.indices@[i][1] as int],
                    self.vertices@[self.indices@[i][2] as int],
                    Vector3::unit_z(),
                    #[trigger] self.face_normals@[i],
                ) by {
                    if i < before.indices@.len() {
                        assert(self.face_normals@[i] == before.face_normals@[i]);
                    }
                }
            }
        }
        assert(tris.take(tris.len() as int) =~= tris);
    }

    /// Adds a geometry.
    fn add_geometry<K: MeshNumerics>(
        &mut self,
        k: &K,
        g: &RawGeometry,
        effects: &Table<Material>,
        material_effects: &Table<String>,
        instances: &Table<Table<String>>,
        any_normals: bool,
        any_texcoords: bool,
    )
        requires
            old(self).sound(k),
        ensures
            final(self).sound(k),
            final(self).merged() == with_geometry(
                old(self).merged(),
                g@,
                (Looks {
                    effects: effects@,
                    material_effects: material_effects@,
                    instances: instances@,
                }),
                any_normals,
                any_texcoords,
            ),
    {
        let ghost s = *self;
        let ghost looks = Looks {
            effects: effects@,
            material_effects: material_effects@,
            instances: instances@,
        };
        let place: Option<usize> = match &g.material_symbol {
            Some(symbol) => {
                let name = find_material(instances, g.id.as_str(), symbol.as_str());
                use_material(&mut self.materials, effects, material_effects, name.as_str(), Ghost(looks))
            },
            None => None,
        };
        let (numbers, table) = number_corners(g);
        let base: usize = self.vertices.len();
        let start: usize = self.indices.len();
        self.add_vertices(g, &table, any_normals, any_texcoords);
        proof {
            let d = different_corners(g@);
            let keys = corner_keys(g@);
            interner::distinct_facts(keys, keys.len() as int);
            assert forall|c: int| 0 <= c < numbers@.len() implies d.index_of(keys[c])
                == #[trigger] numbers@[c] by {
                let i = d.index_of(keys[c]);
                assert(d[numbers@[c] as int] == keys[c]);
                assert(d.contains(keys[c]));
                assert(d[i] == keys[c]);
            }
            assert forall|i: int| 0 <= i < self.indices@.len() implies numerics::face_normal(
                k,
                self.vertices@[self.indices@[i][0] as int],
                self.vertices@[self.indices@[i][1] as int],
                self.vertices@[self.indices@[i][2] as int],
                Vector3::unit_z(),
                #[trigger] self.face_normals@[i],
            ) by {
                assert(s.indices@[i][0] < s.vertices@.len());
                assert(s.indices@[i][1] < s.vertices@.len());
                assert(s.indices@[i][2] < s.vertices@.len());
                assert(s.face_normals@[i] == self.face_normals@[i]);
            }
            assert forall|i: int, c: int| 0 <= i < self.indices@.len() && 0 <= c < 3 implies (
            #[trigger] self.indices@[i][c]) < self.vertices@.len() by {
                assert(s.indices@[i][c] < s.vertices@.len());
            }
        }
        self.add_triangles(k, g, &numbers, base);
        let count: usize = self.indices.len() - start;
        if count > 0 {
            let ghost before = self.submeshes@;
            let m = SubMesh {
                name: g.id.clone(),
                tri_start: start,
                tri_count: count,
                material_index: place,
            };
            self.submeshes.push(m);
            assert(mesh::submeshes_view(self.submeshes@) =~= mesh::submeshes_view(before).push(m@));
        }
        proof {
            let want = with_geometry(s.merged(), g@, looks, any_normals, any_texcoords);
            assert(self.merged().vertices == want.vertices);
            assert(self.merged().normals == want.normals);
            assert(self.merged().texcoords == want.texcoords);
            assert(self.merged().indices == want.indices);
            assert(self.merged().materials == want.materials);
            assert(self.merged().submeshes == want.submeshes);
        }
    }
}

/// Puts geometries into one mesh.
pub fn merge_geometries<K: MeshNumerics>(
    k: &K,
    raw_geoms: &Vec<RawGeometry>,
    effects: &Table<Material>,
    mat_to_effect: &Table<String>,
    bindings: &Table<Table<String>>,
) -> (r: MeshData)
    ensures
        completed(
            k,
            merged(
                dae_geom::raw_views(raw_geoms@),
                (Looks {
                    effects: effects@,
                    material_effects: mat_to_effect@,
                    instances: bindings@,
                }),
            ),
            r@,
        ),
        mesh::corners_within(r@.indices, r@.vertices.len()),
{
    let ghost views = dae_geom::raw_views(raw_geoms@);
    let ghost looks = Looks {
        effects: effects@,
        material_effects: mat_to_effect@,
        instances: bindings@,
    };
    let mut any_normals = false;
    let mut any_texcoords = false;
    for i in 0..raw_geoms.len()
        invariant
            views == dae_geom::raw_views(raw_geoms@),
            any_normals == exists|j: int| 0 <= j < i && (#[trigger] views[j]).normals.len() > 0,
            any_texcoords == exists|j: int| 0 <= j < i && (#[trigger] views[j]).texcoords.len() > 0,
    {
        assert(views[i as int] == raw_geoms@[i as int]@);
        if raw_geoms[i].normals.len() > 0 {
            any_normals = true;
            assert(views[i as int].normals.len() > 0);
        }
        if raw_geoms[i].texcoords.len() > 0 {
            any_texcoords = true;
            assert(views[i as int].texcoords.len() > 0);
        }
    }
    let mut m = Merger {
        vertices: Vec::new(),
        normals: Vec::new(),
        texcoords: Vec::new(),
        indices: Vec::new(),
        face_normals: Vec::new(),
        materials: Vec::new(),
        submeshes: Vec::new(),
    };
    assert(m.merged() =~= merged_from(views, looks, any_normals, any_texcoords, 0));
    for i in 0..raw_geoms.len()
        invariant
            views == dae_geom::raw_views(raw_geoms@),
            looks == (Looks {
                effects: effects@,
                material_effects: mat_to_effect@,
                instances: bindings@,
            }),
            m.sound(k),
            m.merged() == merged_from(views, looks, any_normals, any_texcoords, i as int),
    {
        assert(views[i as int] == raw_geoms@[i as int]@);
        m.add_geometry(k, &raw_geoms[i], effects, mat_to_effect, bindings, any_normals, any_texcoords);
    }
    MeshData {
        vertices: m.vertices,
        indices: m.indices,
        face_normals: m.face_normals,
        vertex_normals: m.normals,
        texcoords: m.texcoords,
        materials: m.materials,
        submeshes: m.submeshes,
    }
}

} // verus!
