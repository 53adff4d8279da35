//! What a Collada document gives back of the mesh that it was written for.

use vstd::prelude::*;
use crate::collada;
use crate::dae_geom;
use crate::dae_looks;
use crate::dae_merge;
use crate::dae_numbers;
use crate::dae_read;
use crate::dae_shapes;
use crate::dae_text;
use crate::dae_tree;
use crate::element;
use crate::interner;
use crate::mesh;
use crate::collada::FilePaths;
use crate::dae_geom::RawView;
use crate::dae_merge::{Looks, Merged};
use crate::dae_text::NumberTexts;
use crate::dae_tree::Run;
use crate::interner::Triple;
use crate::mesh::{MaterialView, MeshView};
use crate::numerics::{MeshNumerics, RealText};
use crate::xml::NodeView;

verus! {

/// Number of triangles in the first `n` runs.
pub open spec fn triangles_before(m: MeshView, n: int) -> int
    decreases n,
{
    if n <= 0 {
        0
    } else {
        triangles_before(m, n - 1) + dae_tree::runs(m)[n - 1].count
    }
}

/// Whether lists of vertices fit the triangles, submeshes are runs of triangles with materials of
/// the mesh, no two materials share a name, numbers are finite, and the corners can be numbered.
pub open spec fn storable(m: MeshView) -> bool {
    &&& mesh::corners_within(m.indices, m.vertices.len())
    &&& m.vertex_normals.len() == 0 || m.vertex_normals.len() == m.vertices.len()
    &&& m.texcoords.len() == 0 || m.texcoords.len() == m.vertices.len()
    &&& forall|i: int|
        0 <= i < dae_tree::runs(m).len() ==> {
            let run = #[trigger] dae_tree::runs(m)[i];
            0 < run.count && run.start + run.count <= m.indices.len()
        }
    &&& dae_looks::materials_exist(m)
    &&& dae_looks::names_are_clear(m)
    &&& dae_looks::textures_have_names(m)
    &&& dae_numbers::is_finite(m)
    &&& 3 * triangles_before(m, dae_tree::runs(m).len() as int) <= u32::MAX
}

/// Whether vertex `w` of `r` is vertex `v` of `m`.
pub open spec fn vertex_comes_back(m: MeshView, v: int, r: Merged, w: int) -> bool {
    &&& 0 <= w < r.vertices.len()
    &&& r.vertices[w] == m.vertices[v]
    &&& m.vertex_normals.len() > 0 ==> w < r.normals.len() && r.normals[w] == m.vertex_normals[v]
    &&& m.texcoords.len() > 0 ==> w < r.texcoords.len() && r.texcoords[w] == m.texcoords[v]
}

/// Whether the triangles of a run are those from `start` on.
pub open spec fn triangles_come_back(m: MeshView, run: Run, r: Merged, start: int) -> bool {
    forall|t: int, c: int|
        0 <= t < run.count && 0 <= c < 3 ==> vertex_comes_back(
            m,
            m.indices[run.start + t][c] as int,
            r,
            (#[trigger] r.indices[start + t][c]) as int,
        )
}

/// Whether a run is a submesh with its triangles and the material of its name.
pub open spec fn run_comes_back(m: MeshView, i: int, r: Merged) -> bool {
    let run = dae_tree::runs(m)[i];
    let s = r.submeshes[i];
    &&& s.tri_start == triangles_before(m, i)
    &&& s.tri_count == run.count
    &&& s.tri_start + s.tri_count <= r.indices.len()
    &&& triangles_come_back(m, run, r, s.tri_start as int)
    &&& match run.material {
        Some(name) => s.material_index matches Some(x) && x < r.materials.len() && r.materials[x as int].name == name,
        None => s.material_index is None,
    }
}

/// Whether every material looks like the one of its name.
pub open spec fn materials_look(looks: Looks, materials: Seq<MaterialView>) -> bool {
    forall|x: int|
        0 <= x < materials.len() ==> (dae_merge::appearance(looks, (#[trigger] materials[x]).name) matches Some(b)
            && materials[x] == (MaterialView { name: materials[x].name, ..b }))
}

/// Whether the first `n` runs have come back.
pub open spec fn come_back_to(m: MeshView, looks: Looks, n: int, r: Merged) -> bool {
    &&& r.indices.len() == triangles_before(m, n)
    &&& r.vertices.len() <= 3 * triangles_before(m, n)
    &&& r.normals.len() == if m.vertex_normals.len() > 0 {
        r.vertices.len()
    } else {
        0
    }
    &&& r.texcoords.len() == if m.texcoords.len() > 0 {
        r.vertices.len()
    } else {
        0
    }
    &&& r.submeshes.len() == n
    &&& forall|i: int| 0 <= i < n ==> #[trigger] run_comes_back(m, i, r)
    &&& materials_look(looks, r.materials)
    &&& r.materials.len() <= n <= triangles_before(m, n)
}

proof fn fewer_triangles(m: MeshView, a: int, b: int)
    requires
        0 <= a <= b <= dae_tree::runs(m).len(),
        forall|i: int| 0 <= i < dae_tree::runs(m).len() ==> (#[trigger] dae_tree::runs(m)[i]).count >= 0,
    ensures
        0 <= triangles_before(m, a) <= triangles_before(m, b),
    decreases b,
{
    if a < b {
        fewer_triangles(m, a, b - 1);
    } else if b > 0 {
        fewer_triangles(m, 0, b - 1);
    }
}

proof fn name_is_where(materials: Seq<MaterialView>, name: Seq<char>, i: int)
    requires
        0 <= i,
    ensures
        dae_merge::named_from(materials, name, i) matches Some(x) ==> i <= x < materials.len() && materials[x].name
            == name,
    decreases materials.len() - i,
{
    if i < materials.len() {
        name_is_where(materials, name, i + 1);
    }
}

/// The corners of a geometry have vertices of their own.
proof fn corners_have_vertices(m: MeshView, i: int, run: Run, base: nat, c: int)
    requires
        storable(m),
        0 <= run.start,
        0 < run.count,
        run.start + run.count <= m.indices.len(),
        base + 3 * run.count <= u32::MAX,
        0 <= c < 3 * run.count,
    ensures
        ({
            let g = dae_shapes::plain_geometry(m, i, run);
            let d = dae_merge::different_corners(g);
            let v = m.indices[run.start + c / 3][c % 3] as int;
            let w = dae_merge::vertex_of(g, base, c) as int;
            &&& g.corners.len() == 3 * run.count
            &&& d.len() <= 3 * run.count
            &&& base <= w < base + d.len()
            &&& dae_merge::position_at(g, d[w - base]) == m.vertices[v]
            &&& m.vertex_normals.len() > 0 ==> dae_merge::normal_at(g, d[w - base]) == m.vertex_normals[v]
            &&& m.texcoords.len() > 0 ==> dae_merge::texcoord_at(g, d[w - base]) == m.texcoords[v]
        }),
{
    let g = dae_shapes::plain_geometry(m, i, run);
    let tris = dae_shapes::run_triangles(m, run);
    assert(dae_text::run_end(m, run.start, run.count) == run.start + run.count);
    assert(tris.len() == run.count);
    let keys = dae_merge::corner_keys(g);
    let d = dae_merge::different_corners(g);
    interner::distinct_facts(keys, g.corners.len() as int);
    let key = keys[c];
    assert(d.contains(key));
    let at = d.index_of(key);
    assert(0 <= at < d.len() && d[at] == key);
    let v = m.indices[run.start + c / 3][c % 3] as int;
    assert(tris[c / 3] == m.indices[run.start + c / 3]);
    assert(dae_numbers::corner_vertex(tris, c) == v);
    assert(m.indices[run.start + c / 3][c % 3] < m.vertices.len());
    assert(g.corners[c] == dae_shapes::plain_corner(m, v));
}

/// Whether a name is bound to nothing else in any geometry.
spec fn stands_for_itself(looks: Looks, name: Seq<char>) -> bool {
    forall|geometry: Seq<char>| #[trigger] dae_merge::material_of(looks.instances, geometry, name) == name
}

/// One more run comes back.
proof fn run_is_added(m: MeshView, looks: Looks, n: int, s: Merged)
    requires
        storable(m),
        0 <= n < dae_tree::runs(m).len(),
        come_back_to(m, looks, n, s),
        dae_tree::runs(m)[n].material matches Some(name) ==> dae_merge::appearance(looks, name) is Some
            && stands_for_itself(looks, name),
    ensures
        come_back_to(
            m,
            looks,
            n + 1,
            dae_merge::with_geometry(
                s,
                dae_shapes::plain_geometry(m, n, dae_tree::runs(m)[n]),
                looks,
                m.vertex_normals.len() > 0,
                m.texcoords.len() > 0,
            ),
        ),
{
    let runs = dae_tree::runs(m);
    let run = runs[n];
    let g = dae_shapes::plain_geometry(m, n, run);
    let d = dae_merge::different_corners(g);
    let r = dae_merge::with_geometry(s, g, looks, m.vertex_normals.len() > 0, m.texcoords.len() > 0);
    assert(0 < runs[n].count && runs[n].start + runs[n].count <= m.indices.len());
    assert(run.start >= 0);
    assert forall|i: int| 0 <= i < runs.len() implies (#[trigger] runs[i]).count >= 0 by {}
    fewer_triangles(m, n + 1, runs.len() as int);
    fewer_triangles(m, n, n + 1);
    assert(triangles_before(m, n + 1) == triangles_before(m, n) + run.count);
    let base = s.vertices.len();
    assert(base + 3 * run.count <= u32::MAX);
    corners_have_vertices(m, n, run, base, 0);
    let tris = dae_merge::triangles_of(g, base);
    assert(tris.len() == run.count);
    let start = s.indices.len() as int;
    assert forall|t: int, c: int| 0 <= t < run.count && 0 <= c < 3 implies vertex_comes_back(
        m,
        m.indices[run.start + t][c] as int,
        r,
        (#[trigger] r.indices[start + t][c]) as int,
    ) by {
        assert(r.indices[start + t] == tris[t]);
        let at = 3 * t + c;
        assert(at / 3 == t && at % 3 == c);
        assert(tris[t][c] == dae_merge::vertex_of(g, base, at));
        corners_have_vertices(m, n, run, base, at);
    }
    assert forall|i: int| 0 <= i < n + 1 implies #[trigger] run_comes_back(m, i, r) by {
        if i < n {
            assert(run_comes_back(m, i, s));
            let other = runs[i];
            let first = s.submeshes[i].tri_start as int;
            assert(r.submeshes[i] == s.submeshes[i]);
            assert forall|t: int, c: int| 0 <= t < other.count && 0 <= c < 3 implies vertex_comes_back(
                m,
                m.indices[other.start + t][c] as int,
                r,
                (#[trigger] r.indices[first + t][c]) as int,
            ) by {
                assert(r.indices[first + t] == s.indices[first + t]);
                let w = s.indices[first + t][c] as int;
                assert(vertex_comes_back(m, m.indices[other.start + t][c] as int, s, w));
                assert(r.vertices[w] == s.vertices[w]);
            }
            assert(triangles_come_back(m, other, r, first));
            if other.material is Some {
                let x = s.submeshes[i].material_index->0 as int;
                assert(r.materials[x] == s.materials[x]);
            }
        } else {
            assert(triangles_come_back(m, run, r, start));
            if run.material is Some {
                name_is_where(s.materials, run.material->0, 0);
            }
        }
    }
    assert forall|x: int| 0 <= x < r.materials.len() implies (dae_merge::appearance(
        looks,
        (#[trigger] r.materials[x]).name,
    ) matches Some(b) && r.materials[x] == (MaterialView { name: r.materials[x].name, ..b })) by {
        if x < s.materials.len() {
            assert(r.materials[x] == s.materials[x]);
        }
    }
}

proof fn runs_come_back(m: MeshView, looks: Looks, g: Seq<RawView>, n: int)
    requires
        storable(m),
        g == Seq::new(
            dae_tree::runs(m).len(),
            |i: int| dae_shapes::plain_geometry(m, i, dae_tree::runs(m)[i]),
        ),
        0 <= n <= dae_tree::runs(m).len(),
        forall|i: int|
            0 <= i < dae_tree::runs(m).len() ==> ((#[trigger] dae_tree::runs(m)[i]).material matches Some(name)
                ==> dae_merge::appearance(looks, name) is Some && stands_for_itself(looks, name)),
    ensures
        come_back_to(
            m,
            looks,
            n,
            dae_merge::merged_from(g, looks, m.vertex_normals.len() > 0, m.texcoords.len() > 0, n),
        ),
    decreases n,
{
    if n > 0 {
        runs_come_back(m, looks, g, n - 1);
        let s = dae_merge::merged_from(g, looks, m.vertex_normals.len() > 0, m.texcoords.len() > 0, n - 1);
        assert(g[n - 1] == dae_shapes::plain_geometry(m, n - 1, dae_tree::runs(m)[n - 1]));
        assert(dae_tree::runs(m)[n - 1].material matches Some(name) ==> dae_merge::appearance(looks, name) is Some);
        run_is_added(m, looks, n - 1, s);
    }
}

/// A mesh without the normals of its triangles.
pub open spec fn without_face_normals(r: MeshView) -> Merged {
    Merged {
        vertices: r.vertices,
        normals: r.vertex_normals,
        texcoords: r.texcoords,
        indices: r.indices,
        materials: r.materials,
        submeshes: r.submeshes,
    }
}

/// Number of the material of a run.
pub open spec fn run_material(m: MeshView, i: int) -> Option<int> {
    if m.submeshes.len() == 0 {
        None
    } else {
        match m.submeshes[i].material_index {
            Some(mi) => Some(mi as int),
            None => None,
        }
    }
}

/// Whether a run is a submesh of `r` with its triangles and its material.
pub open spec fn submesh_comes_back<K: FilePaths>(k: &K, dir: &str, m: MeshView, i: int, r: MeshView) -> bool {
    &&& run_comes_back(m, i, without_face_normals(r))
    &&& match run_material(m, i) {
        Some(mi) => r.submeshes[i].material_index matches Some(x) && dae_looks::kept(
            k,
            dir,
            m.materials[mi],
            r.materials[x as int],
        ),
        None => r.submeshes[i].material_index is None,
    }
}

/// Whether the submeshes of `m` (all of it, if there are none) are those of `r`, each with the same
/// triangles and a material of the same name, colours, shininess and texture.
pub open spec fn comes_back<K: FilePaths>(k: &K, dir: &str, m: MeshView, r: MeshView) -> bool {
    &&& r.submeshes.len() == dae_tree::runs(m).len()
    &&& r.indices.len() == triangles_before(m, dae_tree::runs(m).len() as int)
    &&& forall|i: int| 0 <= i < r.submeshes.len() ==> #[trigger] submesh_comes_back(k, dir, m, i, r)
}

/// A mesh comes back from a document that holds the elements written for it, where decimal texts are
/// read as the numbers that they were written for.
pub proof fn written_mesh_comes_back<K: MeshNumerics + RealText + FilePaths>(
    k: &K,
    dir: &str,
    m: MeshView,
    t: NumberTexts,
    nodes: Seq<NodeView>,
    r: MeshView,
)
    requires
        storable(m),
        dae_numbers::prints_plainly(k),
        dae_numbers::reads_back(k),
        dae_text::is_mesh_text(k, m, t),
        element::is_document(nodes, dae_tree::document_tree(m, t)),
        collada::loaded(k, dir, nodes, r),
    ensures
        comes_back(k, dir, m, r),
{
    let x = choose|x: dae_read::ReadingsView| #[trigger]
        collada::nodes_read(k, dir, nodes, x) && dae_merge::completed(k, collada::described(nodes, x), r);
    let runs = dae_tree::runs(m);
    assert forall|i: int| 0 <= i < m.submeshes.len() implies (#[trigger] m.submeshes[i]).tri_start
        <= m.indices.len() by {
        assert(runs[i].start + runs[i].count <= m.indices.len());
    }
    dae_shapes::axis_is_read(nodes, m, t);
    dae_shapes::geometries_are_read(k, dir, nodes, x, m, t);
    let g = dae_geom::geometries(nodes, x, "Z_UP"@);
    let looks = dae_looks::looks(nodes, x);
    assert forall|i: int| 0 <= i < runs.len() implies ((#[trigger] runs[i]).material matches Some(name)
        ==> dae_merge::appearance(looks, name) is Some && stands_for_itself(looks, name)) by {
        if runs[i].material is Some {
            let mi = m.submeshes[i].material_index->0 as int;
            assert(mi < m.materials.len());
            dae_looks::appearance_is_kept(k, dir, nodes, x, m, t, mi);
            dae_looks::symbol_is_material(nodes, m, t, runs[i].material->0);
        }
    }
    assert(g[0] == dae_shapes::plain_geometry(m, 0, runs[0]));
    assert(dae_merge::has_normals(g) == (m.vertex_normals.len() > 0)) by {
        if m.vertex_normals.len() > 0 {
            assert(g[0].normals.len() > 0);
        }
    }
    assert(dae_merge::has_texcoords(g) == (m.texcoords.len() > 0)) by {
        if m.texcoords.len() > 0 {
            assert(g[0].texcoords.len() > 0);
        }
    }
    runs_come_back(m, looks, g, runs.len() as int);
    let s = dae_merge::merged(g, looks);
    assert(without_face_normals(r) =~= s);
    assert forall|i: int| 0 <= i < r.submeshes.len() implies #[trigger] submesh_comes_back(k, dir, m, i, r) by {
        assert(run_comes_back(m, i, s));
        if m.submeshes.len() > 0 && m.submeshes[i].material_index is Some {
            let mi = m.submeshes[i].material_index->0 as int;
            assert(mi < m.materials.len());
            dae_looks::appearance_is_kept(k, dir, nodes, x, m, t, mi);
            let at = r.submeshes[i].material_index->0 as int;
            let name = dae_text::material_name(m.materials, mi);
            assert(r.materials[at].name == name);
            assert(s.materials[at] == (MaterialView {
                name: s.materials[at].name,
                ..dae_merge::appearance(looks, s.materials[at].name)->0
            }));
        }
    }
}

/// Whether the runs of a mesh follow each other and cover all its triangles.
pub open spec fn covering(m: MeshView) -> bool {
    let n = dae_tree::runs(m).len() as int;
    &&& forall|i: int| 0 <= i < n ==> (#[trigger] dae_tree::runs(m)[i]).start == triangles_before(m, i)
    &&& triangles_before(m, n) == m.indices.len()
}

/// The run to which a triangle belongs.
proof fn run_of(m: MeshView, n: int, t: int) -> (i: int)
    requires
        0 <= n,
        0 <= t < triangles_before(m, n),
    ensures
        0 <= i < n,
        triangles_before(m, i) <= t < triangles_before(m, i) + dae_tree::runs(m)[i].count,
    decreases n,
{
    if t < triangles_before(m, n - 1) {
        run_of(m, n - 1, t)
    } else {
        n - 1
    }
}

/// Where the submeshes follow each other and cover the mesh, each comes back at its place and with
/// its material, and each triangle with its corners at theirs.
pub proof fn covering_submeshes_stay<K: FilePaths>(k: &K, dir: &str, m: MeshView, r: MeshView)
    requires
        storable(m),
        covering(m),
        comes_back(k, dir, m, r),
    ensures
        r.indices.len() == m.indices.len(),
        forall|t: int, c: int|
            0 <= t < m.indices.len() && 0 <= c < 3 ==> r.vertices[(#[trigger] r.indices[t][c]) as int]
                == m.vertices[m.indices[t][c] as int],
        m.submeshes.len() > 0 ==> r.submeshes.len() == m.submeshes.len(),
        forall|i: int|
            0 <= i < m.submeshes.len() ==> {
                let s = #[trigger] r.submeshes[i];
                &&& s.tri_start == m.submeshes[i].tri_start
                &&& s.tri_count == m.submeshes[i].tri_count
                &&& match m.submeshes[i].material_index {
                    Some(mi) => {
                        &&& s.material_index matches Some(x)
                        &&& r.materials[x as int].name == dae_text::material_name(m.materials, mi as int)
                        &&& dae_looks::kept(k, dir, m.materials[mi as int], r.materials[x as int])
                    },
                    None => s.material_index is None,
                }
            },
{
    let runs = dae_tree::runs(m);
    let n = runs.len() as int;
    let f = without_face_normals(r);
    assert forall|t: int, c: int| 0 <= t < m.indices.len() && 0 <= c < 3 implies r.vertices[(
    #[trigger] r.indices[t][c]) as int] == m.vertices[m.indices[t][c] as int] by {
        let i = run_of(m, n, t);
        assert(submesh_comes_back(k, dir, m, i, r));
        assert(run_comes_back(m, i, f));
        assert(runs[i].start == triangles_before(m, i));
        let start = f.submeshes[i].tri_start as int;
        let u = t - start;
        assert(vertex_comes_back(m, m.indices[runs[i].start + u][c] as int, f, f.indices[start + u][c] as int));
    }
    assert forall|i: int| 0 <= i < m.submeshes.len() implies {
        let s = #[trigger] r.submeshes[i];
        &&& s.tri_start == m.submeshes[i].tri_start
        &&& s.tri_count == m.submeshes[i].tri_count
        &&& match m.submeshes[i].material_index {
            Some(mi) => {
                &&& s.material_index matches Some(x)
                &&& r.materials[x as int].name == dae_text::material_name(m.materials, mi as int)
                &&& dae_looks::kept(k, dir, m.materials[mi as int], r.materials[x as int])
            },
            None => s.material_index is None,
        }
    } by {
        assert(submesh_comes_back(k, dir, m, i, r));
        assert(run_comes_back(m, i, f));
        assert(runs[i].start == triangles_before(m, i));
    }
}

} // verus!
