//! Mesh decimation.
//!
//! - [`DecimationMethod::Qem`]: edge collapses by quadric error, best quality.
//! - [`DecimationMethod::EdgeLength`]: shortest edges first, faster.
//! - [`DecimationMethod::VertexClustering`]: merges the vertices of each cell of a grid, fastest.

use vstd::prelude::*;
use crate::algebra;
use crate::cluster;
use crate::collapse;
use crate::mesh;
use crate::numerics;
use crate::quotient;
use crate::text;
use crate::cluster::decimate_vertex_clustering;
use crate::collapse::{Collapser, EdgeMetric, Surface};
use crate::heap::CollapseCandidate;
use crate::mesh::{clone_materials, Material, MaterialView, MeshData, MeshView};
use crate::number::{Point3, Real, Vector3};
use crate::numerics::{compute_face_normal, MeshNumerics, Quadric, TINY_LENGTH};
use crate::text::matches_lowered;

verus! {

/// Mesh decimation algorithms.
#[derive(Clone, Copy, PartialEq, Eq, Structural, Debug, Hash)]
pub enum DecimationMethod {
    /// Collapses the edge with the least quadric error.
    Qem,
    /// Collapses the shortest edge to its midpoint.
    EdgeLength,
    /// Merges the vertices within each cell of a grid.
    VertexClustering,
}

impl DecimationMethod {
    /// All methods.
    pub const ALL: [DecimationMethod; 3] = [
        DecimationMethod::Qem,
        DecimationMethod::EdgeLength,
        DecimationMethod::VertexClustering,
    ];

    /// Short human-readable label.
    pub fn label(&self) -> (r: &'static str)
        ensures
            r@ == (match *self {
                DecimationMethod::Qem => "QEM"@,
                DecimationMethod::EdgeLength => "Edge Length"@,
                DecimationMethod::VertexClustering => "Vertex Clustering"@,
            }),
    {
        match self {
            Self::Qem => "QEM",
            Self::EdgeLength => "Edge Length",
            Self::VertexClustering => "Vertex Clustering",
        }
    }

    /// One-line description.
    pub fn description(&self) -> (r: &'static str)
        ensures
            r@ == (match *self {
                DecimationMethod::Qem => "Best quality — minimises geometric error (Garland & Heckbert)"@,
                DecimationMethod::EdgeLength => "Good quality — collapses shortest edges first (fast)"@,
                DecimationMethod::VertexClustering => "Fastest — spatial grid vertex merging (lower quality)"@,
            }),
    {
        match self {
            Self::Qem => "Best quality — minimises geometric error (Garland & Heckbert)",
            Self::EdgeLength => "Good quality — collapses shortest edges first (fast)",
            Self::VertexClustering => "Fastest — spatial grid vertex merging (lower quality)",
        }
    }

    /// The method that a name stands for, in any mix of capital and small letters.
    pub open spec fn named(s: Seq<char>) -> DecimationMethod {
        if text::lowers_to(s, "edge"@) || text::lowers_to(s, "edge_length"@) || text::lowers_to(s, "edgelength"@) {
            DecimationMethod::EdgeLength
        } else if text::lowers_to(s, "cluster"@) || text::lowers_to(s, "vertex_clustering"@) || text::lowers_to(
            s,
            "vertexclustering"@,
        ) || text::lowers_to(s, "vcluster"@) {
            DecimationMethod::VertexClustering
        } else {
            DecimationMethod::Qem
        }
    }

    /// Reads a method's name, in any mix of capital and small letters; `Qem` for any other text.
    pub fn from_str_loose(s: &str) -> (r: Self)
        ensures
            r == Self::named(s@),
    {
        if matches_lowered(s, "edge") || matches_lowered(s, "edge_length") || matches_lowered(
            s,
            "edgelength",
        ) {
            Self::EdgeLength
        } else if matches_lowered(s, "cluster") || matches_lowered(s, "vertex_clustering")
            || matches_lowered(s, "vertexclustering") || matches_lowered(s, "vcluster") {
            Self::VertexClustering
        } else {
            Self::Qem
        }
    }
}

// ── Dropping what is not used ──

/// Positions of the used vertices among the first `n`, in order.
pub open spec fn kept_vertices(positions: Seq<Point3>, used: Seq<bool>, n: int) -> Seq<Point3>
    decreases n,
{
    if n <= 0 {
        Seq::empty()
    } else if used[n - 1] {
        kept_vertices(positions, used, n - 1).push(positions[n - 1])
    } else {
        kept_vertices(positions, used, n - 1)
    }
}

/// A used vertex stands at the place that counts the used vertices before it.
pub proof fn kept_vertices_at(positions: Seq<Point3>, used: Seq<bool>, n: int)
    requires
        0 <= n <= used.len(),
    ensures
        kept_vertices(positions, used, n).len() == collapse::count_true(used, n),
        forall|v: int|
            0 <= v < n && used[v] ==> kept_vertices(positions, used, n)[#[trigger] collapse::count_true(
                used,
                v,
            ) as int] == positions[v],
    decreases n,
{
    if n > 0 {
        kept_vertices_at(positions, used, n - 1);
        collapse::count_true_bounds(used, n - 1);
        assert forall|v: int| 0 <= v < n && used[v] implies kept_vertices(positions, used, n)[
        #[trigger] collapse::count_true(used, v) as int] == positions[v] by {
            if v < n - 1 {
                assert(collapse::count_true(used, v) < collapse::count_true(used, n - 1));
            }
        }
    }
}

/// Used vertices with the same number are one.
pub proof fn numbers_distinct(used: Seq<bool>, u: int, v: int)
    requires
        0 <= u < used.len(),
        0 <= v < used.len(),
        used[u],
        used[v],
        collapse::count_true(used, u) == collapse::count_true(used, v),
    ensures
        u == v,
{
    if u < v {
        collapse::count_true_bounds(used, v);
    } else if v < u {
        collapse::count_true_bounds(used, u);
    }
}

/// Keeps the used vertices and numbers them anew.
pub(crate) fn keep_used(positions: &Vec<Point3>, used: &Vec<bool>) -> (r: (Vec<Point3>, Vec<u32>))
    requires
        positions@.len() == used@.len(),
        positions@.len() <= u32::MAX,
    ensures
        r.0@ == kept_vertices(positions@, used@, used@.len() as int),
        r.1@.len() == used@.len(),
        forall|v: int| 0 <= v < used@.len() && used@[v] ==> (#[trigger] r.1@[v]) == collapse::count_true(used@, v),
{
    let mut kept: Vec<Point3> = Vec::new();
    let mut number: Vec<u32> = Vec::new();
    for v in 0..used.len()
        invariant
            positions@.len() == used@.len(),
            positions@.len() <= u32::MAX,
            kept@ == kept_vertices(positions@, used@, v as int),
            number@.len() == v,
            forall|u: int| 0 <= u < v && used@[u] ==> (#[trigger] number@[u]) == collapse::count_true(used@, u),
    {
        proof {
            kept_vertices_at(positions@, used@, v as int);
            collapse::count_true_bounds(used@, v as int);
        }
        if used[v] {
            number.push(kept.len() as u32);
            kept.push(positions[v]);
        } else {
            number.push(0);
        }
    }
    (kept, number)
}

/// Marks the corners of a triangle.
fn mark(used: &mut Vec<bool>, t: [u32; 3])
    requires
        t[0] < old(used)@.len(),
        t[1] < old(used)@.len(),
        t[2] < old(used)@.len(),
    ensures
        final(used)@.len() == old(used)@.len(),
        forall|v: int|
            0 <= v < old(used)@.len() ==> (#[trigger] final(used)@[v]) == (old(used)@[v] || v == t[0]
                || v == t[1] || v == t[2]),
{
    used.set(t[0] as usize, true);
    used.set(t[1] as usize, true);
    used.set(t[2] as usize, true);
}

/// A list of `n` times `false`.
fn all_false(n: usize) -> (r: Vec<bool>)
    ensures
        r@ == Seq::new(n as nat, |i: int| false),
{
    let mut r: Vec<bool> = Vec::new();
    for i in 0..n
        invariant
            r@ == Seq::new(i as nat, |j: int| false),
    {
        r.push(false);
    }
    r
}

/// Whether `v` is a corner of one of the first `n` triangles that are alive.
pub open spec fn is_used(tris: Seq<[u32; 3]>, alive: Seq<bool>, n: int, v: int) -> bool {
    exists|i: int| 0 <= i < n && alive[i] && corner_of(#[trigger] tris[i], v)
}

pub open spec fn corner_of(t: [u32; 3], v: int) -> bool {
    v == t[0] || v == t[1] || v == t[2]
}

/// Which of `n` vertices are corners of live triangles.
pub open spec fn used_by(tris: Seq<[u32; 3]>, alive: Seq<bool>, n: nat) -> Seq<bool> {
    Seq::new(n, |v: int| is_used(tris, alive, tris.len() as int, v))
}

/// The triangles among the first `n` that are alive and have three different corners.
pub open spec fn kept_tris(tris: Seq<[u32; 3]>, alive: Seq<bool>, n: int) -> Seq<[u32; 3]>
    decreases n,
{
    if n <= 0 {
        Seq::empty()
    } else if alive[n - 1] && !mesh::degenerate(tris[n - 1]) {
        kept_tris(tris, alive, n - 1).push(tris[n - 1])
    } else {
        kept_tris(tris, alive, n - 1)
    }
}

/// Whether `t2` is `t` with its corners numbered by the used vertices.
pub open spec fn renumbered(used: Seq<bool>, t: [u32; 3], t2: [u32; 3]) -> bool {
    &&& t2[0] == collapse::count_true(used, t[0] as int)
    &&& t2[1] == collapse::count_true(used, t[1] as int)
    &&& t2[2] == collapse::count_true(used, t[2] as int)
}

/// Whether `r` consists of the live triangles with three different corners, in order,
/// and of the vertices that live triangles use, with the unit normals of the triangles.
pub open spec fn compacted<K: MeshNumerics>(
    k: &K,
    positions: Seq<Point3>,
    tris: Seq<[u32; 3]>,
    alive: Seq<bool>,
    materials: Seq<MaterialView>,
    r: MeshView,
) -> bool {
    let used = used_by(tris, alive, positions.len());
    let kept = kept_tris(tris, alive, tris.len() as int);
    &&& r.vertices == kept_vertices(positions, used, used.len() as int)
    &&& r.indices.len() == kept.len()
    &&& forall|i: int| 0 <= i < kept.len() ==> renumbered(used, kept[i], #[trigger] r.indices[i])
    &&& r.face_normals.len() == kept.len()
    &&& forall|i: int|
        0 <= i < kept.len() ==> numerics::face_normal(
            k,
            r.vertices[r.indices[i][0] as int],
            r.vertices[r.indices[i][1] as int],
            r.vertices[r.indices[i][2] as int],
            Vector3::zero(),
            #[trigger] r.face_normals[i],
        )
    &&& bare(materials, r)
}

/// Whether the mesh has the given materials and neither vertex normals, texture
/// coordinates nor submeshes.
pub open spec fn bare(materials: Seq<MaterialView>, r: MeshView) -> bool {
    &&& r.materials == materials
    &&& r.vertex_normals.len() == 0
    &&& r.texcoords.len() == 0
    &&& r.submeshes.len() == 0
}

/// Whether a mesh can be drawn: corners exist, no triangle is degenerate, each
/// triangle has a normal.
pub open spec fn tidy(r: MeshView) -> bool {
    &&& mesh::corners_within(r.indices, r.vertices.len())
    &&& forall|i: int| 0 <= i < r.indices.len() ==> !mesh::degenerate(#[trigger] r.indices[i])
    &&& r.face_normals.len() == r.indices.len()
}

proof fn kept_tris_members(tris: Seq<[u32; 3]>, alive: Seq<bool>, n: int)
    requires
        0 <= n <= tris.len(),
        alive.len() == tris.len(),
    ensures
        kept_tris(tris, alive, n).len() <= collapse::count_true(alive, n),
        forall|i: int|
            0 <= i < kept_tris(tris, alive, n).len() ==> !mesh::degenerate(
                #[trigger] kept_tris(tris, alive, n)[i],
            ) && exists|j: int| 0 <= j < n && alive[j] && #[trigger] tris[j] == kept_tris(tris, alive, n)[i],
    decreases n,
{
    if n > 0 {
        kept_tris_members(tris, alive, n - 1);
        let p = kept_tris(tris, alive, n - 1);
        assert forall|i: int| 0 <= i < kept_tris(tris, alive, n).len() implies !mesh::degenerate(
            #[trigger] kept_tris(tris, alive, n)[i],
        ) && exists|j: int| 0 <= j < n && alive[j] && #[trigger] tris[j] == kept_tris(tris, alive, n)[i] by {
            if i < p.len() {
                assert(kept_tris(tris, alive, n)[i] == p[i]);
            } else {
                assert(tris[n - 1] == kept_tris(tris, alive, n)[i]);
            }
        }
    }
}

/// What is left after compaction can be drawn, and has no more triangles than were alive.
pub proof fn compacted_is_tidy<K: MeshNumerics>(
    k: &K,
    positions: Seq<Point3>,
    tris: Seq<[u32; 3]>,
    alive: Seq<bool>,
    materials: Seq<MaterialView>,
    r: MeshView,
)
    requires
        mesh::corners_within(tris, positions.len()),
        alive.len() == tris.len(),
        compacted(k, positions, tris, alive, materials, r),
    ensures
        tidy(r),
        r.indices.len() <= collapse::count_true(alive, alive.len() as int),
        r.vertices.len() <= positions.len(),
{
    let used = used_by(tris, alive, positions.len());
    let n = tris.len() as int;
    let kept = kept_tris(tris, alive, n);
    kept_tris_members(tris, alive, n);
    kept_vertices_at(positions, used, used.len() as int);
    collapse::count_true_bounds(used, used.len() as int);
    assert forall|i: int| 0 <= i < r.indices.len() implies !mesh::degenerate(#[trigger] r.indices[i])
        && r.indices[i][0] < r.vertices.len() && r.indices[i][1] < r.vertices.len()
        && r.indices[i][2] < r.vertices.len() by {
        assert(renumbered(used, kept[i], r.indices[i]));
        assert(!mesh::degenerate(kept[i]));
        let j = choose|j: int| 0 <= j < n && alive[j] && #[trigger] tris[j] == kept[i];
        assert(tris[j][0] < positions.len() && tris[j][1] < positions.len() && tris[j][2]
            < positions.len());
        let (a, b, c) = (kept[i][0] as int, kept[i][1] as int, kept[i][2] as int);
        assert(corner_of(tris[j], a) && corner_of(tris[j], b) && corner_of(tris[j], c));
        assert(used[a] && used[b] && used[c]);
        if collapse::count_true(used, a) == collapse::count_true(used, b) {
            numbers_distinct(used, a, b);
        }
        if collapse::count_true(used, b) == collapse::count_true(used, c) {
            numbers_distinct(used, b, c);
        }
        if collapse::count_true(used, a) == collapse::count_true(used, c) {
            numbers_distinct(used, a, c);
        }
    }
    assert forall|i: int, c: int| 0 <= i < r.indices.len() && 0 <= c < 3 implies (
    #[trigger] r.indices[i][c]) < r.vertices.len() by {
        assert(!mesh::degenerate(r.indices[i]));
        assert(c == 0 || c == 1 || c == 2);
    }
}

/// Marks the corners of the live triangles.
pub(crate) fn used_vertices(n: usize, tris: &Vec<[u32; 3]>, alive: &Vec<bool>) -> (used: Vec<bool>)
    requires
        mesh::corners_within(tris@, n as nat),
        alive@.len() == tris@.len(),
    ensures
        used@ == used_by(tris@, alive@, n as nat),
{
    let mut used: Vec<bool> = all_false(n);
    for i in 0..tris.len()
        invariant
            mesh::corners_within(tris@, n as nat),
            alive@.len() == tris@.len(),
            used@.len() == n,
            forall|v: int| 0 <= v < n ==> (#[trigger] used@[v]) == is_used(tris@, alive@, i as int, v),
    {
        let t: [u32; 3] = tris[i];
        let ghost u0 = used@;
        assert(tris@[i as int][0] < n && tris@[i as int][1] < n && tris@[i as int][2] < n);
        if alive[i] {
            mark(&mut used, t);
        }
        assert forall|v: int| 0 <= v < n implies (#[trigger] used@[v]) == is_used(
            tris@,
            alive@,
            i + 1,
            v,
        ) by {
            assert(u0[v] == is_used(tris@, alive@, i as int, v));
            if u0[v] {
                let j = choose|j: int| 0 <= j < i && alive@[j] && corner_of(#[trigger] tris@[j], v);
                assert(corner_of(tris@[j], v));
            }
            if alive@[i as int] && corner_of(t, v) {
                assert(corner_of(tris@[i as int], v));
            }
            if is_used(tris@, alive@, i + 1, v) {
                let j = choose|j: int| 0 <= j < i + 1 && alive@[j] && corner_of(#[trigger] tris@[j], v);
                if j < i {
                    assert(is_used(tris@, alive@, i as int, v));
                }
            }
        }
    }
    assert(used@ =~= used_by(tris@, alive@, n as nat));
    used
}

/// Collects the live triangles into a mesh of their own.
fn compact_mesh<K: MeshNumerics>(
    k: &K,
    positions: &Vec<Point3>,
    tris: &Vec<[u32; 3]>,
    alive: &Vec<bool>,
    materials: Vec<Material>,
) -> (r: MeshData)
    requires
        mesh::corners_within(tris@, positions@.len()),
        alive@.len() == tris@.len(),
        positions@.len() <= u32::MAX,
    ensures
        compacted(k, positions@, tris@, alive@, mesh::materials_view(materials@), r@),
{
    let n: usize = positions.len();
    let used: Vec<bool> = used_vertices(n, tris, alive);
    let ghost u = used@;
    let (vertices, number) = keep_used(positions, &used);
    let mut indices: Vec<[u32; 3]> = Vec::new();
    let mut face_normals: Vec<Vector3> = Vec::new();
    proof {
        kept_vertices_at(positions@, u, n as int);
    }
    for i in 0..tris.len()
        invariant
            n == positions@.len(),
            mesh::corners_within(tris@, n as nat),
            alive@.len() == tris@.len(),
            u == used_by(tris@, alive@, n as nat),
            vertices@ == kept_vertices(positions@, u, n as int),
            vertices@.len() == collapse::count_true(u, n as int),
            number@.len() == n,
            forall|v: int| 0 <= v < n && u[v] ==> (#[trigger] number@[v]) == collapse::count_true(u, v),
            indices@.len() == kept_tris(tris@, alive@, i as int).len(),
            forall|j: int|
                0 <= j < indices@.len() ==> renumbered(
                    u,
                    kept_tris(tris@, alive@, i as int)[j],
                    #[trigger] indices@[j],
                ),
            face_normals@.len() == indices@.len(),
            forall|j: int|
                0 <= j < indices@.len() ==> numerics::face_normal(
                    k,
                    vertices@[indices@[j][0] as int],
                    vertices@[indices@[j][1] as int],
                    vertices@[indices@[j][2] as int],
                    Vector3::zero(),
                    #[trigger] face_normals@[j],
                ),
    {
        let t: [u32; 3] = tris[i];
        assert(tris@[i as int][0] < n && tris@[i as int][1] < n && tris@[i as int][2] < n);
        if alive[i] {
            let i0: u32 = number[t[0] as usize];
            let i1: u32 = number[t[1] as usize];
            let i2: u32 = number[t[2] as usize];
            proof {
                let (a, b, c) = (t[0] as int, t[1] as int, t[2] as int);
                assert(corner_of(tris@[i as int], a) && corner_of(tris@[i as int], b) && corner_of(
                    tris@[i as int],
                    c,
                ));
                assert(u[a] && u[b] && u[c]);
                collapse::count_true_bounds(u, n as int);
                if i0 == i1 {
                    numbers_distinct(u, a, b);
                }
                if i1 == i2 {
                    numbers_distinct(u, b, c);
                }
                if i0 == i2 {
                    numbers_distinct(u, a, c);
                }
            }
            if i0 != i1 && i1 != i2 && i0 != i2 {
                let ghost f0 = face_normals@;
                let ghost x0 = indices@;
                let t2: [u32; 3] = [i0, i1, i2];
                indices.push(t2);
                let normal = compute_face_normal(
                    k,
                    vertices[i0 as usize],
                    vertices[i1 as usize],
                    vertices[i2 as usize],
                    Vector3::zero(),
                );
                face_normals.push(normal);
                assert forall|j: int| 0 <= j < indices@.len() implies renumbered(
                    u,
                    kept_tris(tris@, alive@, i + 1)[j],
                    #[trigger] indices@[j],
                ) by {
                    if j < x0.len() {
                        assert(indices@[j] == x0[j]);
                    }
                }
                assert forall|j: int| 0 <= j < indices@.len() implies numerics::face_normal(
                    k,
                    vertices@[indices@[j][0] as int],
                    vertices@[indices@[j][1] as int],
                    vertices@[indices@[j][2] as int],
                    Vector3::zero(),
                    #[trigger] face_normals@[j],
                ) by {
                    if j < x0.len() {
                        assert(face_normals@[j] == f0[j]);
                    }
                }
            }
        }
    }
    MeshData {
        vertices,
        indices,
        face_normals,
        vertex_normals: Vec::new(),
        texcoords: Vec::new(),
        materials,
        submeshes: Vec::new(),
    }
}

// ── Quadric error ──

/// Whether `yes` tells that `p` is closer to the middle of the edge than three edge lengths.
pub open spec fn near_edge<K: MeshNumerics>(k: &K, a: Point3, b: Point3, p: Point3, yes: bool) -> bool {
    exists|mid: Point3, len: Real, d: Real, limit: Real|
        {
            &&& #[trigger] call_ensures(K::midpoint, (k, a, b), mid)
            &&& #[trigger] call_ensures(K::distance, (k, a, b), len)
            &&& #[trigger] call_ensures(K::distance, (k, p, mid), d)
            &&& #[trigger] call_ensures(K::tripled, (k, len), limit)
            &&& yes == d.below(limit)
        }
}

/// Whether `r` is the end of the edge or its middle, where the quadric is least.
pub open spec fn best_on_edge<K: MeshNumerics>(
    k: &K,
    q: Quadric,
    a: Point3,
    b: Point3,
    r: Point3,
) -> bool {
    exists|mid: Point3, ea: Real, eb: Real, em: Real|
        {
            &&& #[trigger] call_ensures(K::midpoint, (k, a, b), mid)
            &&& #[trigger] call_ensures(K::quadric_error, (k, q, a), ea)
            &&& #[trigger] call_ensures(K::quadric_error, (k, q, b), eb)
            &&& #[trigger] call_ensures(K::quadric_error, (k, q, mid), em)
            &&& r == (if ea.at_most(eb) && ea.at_most(em) {
                a
            } else if eb.at_most(em) {
                b
            } else {
                mid
            })
        }
}

/// Whether `r` is where the vertex merged from `a` and `b` goes: the minimum of the
/// quadric where there is one near the edge, else the best of the ends and the middle.
pub open spec fn optimal<K: MeshNumerics>(k: &K, q: Quadric, a: Point3, b: Point3, r: Point3) -> bool {
    exists|least: Option<Point3>|
        {
            &&& #[trigger] call_ensures(K::quadric_minimum, (k, q), least)
            &&& match least {
                Some(p) => exists|near: bool| #[trigger]
                    near_edge(k, a, b, p, near) && if near {
                        r == p
                    } else {
                        best_on_edge(k, q, a, b, r)
                    },
                None => best_on_edge(k, q, a, b, r),
            }
        }
}

/// Where the vertex merged from `a` and `b` goes.
fn optimal_point<K: MeshNumerics>(k: &K, q: Quadric, a: Point3, b: Point3) -> (r: Point3)
    ensures
        optimal(k, q, a, b, r),
{
    let least = k.quadric_minimum(q);
    if let Some(p) = least {
        let mid = k.midpoint(a, b);
        let len = k.distance(a, b);
        let d = k.distance(p, mid);
        let limit = k.tripled(len);
        let near = d.lt(limit);
        assert(near_edge(k, a, b, p, near));
        if near {
            return p;
        }
    }
    let mid = k.midpoint(a, b);
    let ea = k.quadric_error(q, a);
    let eb = k.quadric_error(q, b);
    let em = k.quadric_error(q, mid);
    let r = if ea.le(eb) && ea.le(em) {
        a
    } else if eb.le(em) {
        b
    } else {
        mid
    };
    assert(best_on_edge(k, q, a, b, r));
    r
}

/// Collapses by quadric error.
pub struct QemMetric<'a, K> {
    pub k: &'a K,
}

/// Whether `r` gives cost and position of a collapse by quadric error.
pub open spec fn qem_proposal<K: MeshNumerics>(
    k: &K,
    pa: Point3,
    pb: Point3,
    wa: Quadric,
    wb: Quadric,
    r: (Real, Point3),
) -> bool {
    exists|q: Quadric, e: Real|
        {
            &&& #[trigger] call_ensures(K::quadric_sum, (k, wa, wb), q)
            &&& optimal(k, q, pa, pb, r.1)
            &&& #[trigger] call_ensures(K::quadric_error, (k, q, r.1), e)
            &&& r.0 == e.larger(Real::zero())
        }
}

impl<'a, K: MeshNumerics> EdgeMetric for QemMetric<'a, K> {
    type Weight = Quadric;

    fn propose(&self, pa: Point3, pb: Point3, wa: Quadric, wb: Quadric) -> (r: (Real, Point3))
        ensures
            qem_proposal(self.k, pa, pb, wa, wb, r),
    {
        let q = self.k.quadric_sum(wa, wb);
        let target = optimal_point(self.k, q, pa, pb);
        let e = self.k.quadric_error(q, target);
        (e.max(Real::zero()), target)
    }

    fn place(&self, pa: Point3, pb: Point3, target: Point3) -> (r: Point3)
        ensures
            r == target,
    {
        target
    }

    fn combine(&self, wa: Quadric, wb: Quadric) -> (r: Quadric)
        ensures
            call_ensures(K::quadric_sum, (self.k, wa, wb), r),
    {
        self.k.quadric_sum(wa, wb)
    }
}

/// Whether `r` is the quadric of a triangle's plane, weighted by area; `None` where
/// the area vanishes.
pub open spec fn triangle_quadric<K: MeshNumerics>(
    k: &K,
    p0: Point3,
    p1: Point3,
    p2: Point3,
    r: Option<Quadric>,
) -> bool {
    exists|n: Vector3, len: Real|
        {
            &&& #[trigger] call_ensures(K::edge_cross, (k, p0, p1, p2), n)
            &&& #[trigger] call_ensures(K::norm, (k, n), len)
            &&& if len.below(Real { bits: TINY_LENGTH }) {
                r is None
            } else {
                exists|unit: Vector3|
                    {
                        &&& #[trigger] call_ensures(K::divided, (k, n, len), unit)
                        &&& r is Some
                        &&& call_ensures(K::plane_quadric, (k, unit, p0, len), r->0)
                    }
            }
        }
}

fn compute_triangle_quadric<K: MeshNumerics>(k: &K, p0: Point3, p1: Point3, p2: Point3) -> (r: Option<
    Quadric,
>)
    ensures
        triangle_quadric(k, p0, p1, p2, r),
{
    let n = k.edge_cross(p0, p1, p2);
    let len = k.norm(n);
    if len.lt(Real { bits: TINY_LENGTH }) {
        None
    } else {
        let unit = k.divided(n, len);
        let q = k.plane_quadric(unit, p0, len);
        assert(call_ensures(K::divided, (k, n, len), unit));
        Some(q)
    }
}

/// Whether `q2` is `q` with `w` added at `v`.
pub open spec fn added_at<K: MeshNumerics>(
    k: &K,
    q: Seq<Quadric>,
    v: u32,
    w: Quadric,
    q2: Seq<Quadric>,
) -> bool {
    &&& q2.len() == q.len()
    &&& call_ensures(K::quadric_sum, (k, q[v as int], w), q2[v as int])
    &&& q2 == q.update(v as int, q2[v as int])
}

/// Whether `q2` is `q` with `w` added at the three corners.
pub open spec fn added_at_corners<K: MeshNumerics>(
    k: &K,
    q: Seq<Quadric>,
    t: [u32; 3],
    w: Quadric,
    q2: Seq<Quadric>,
) -> bool {
    exists|x: Seq<Quadric>, y: Seq<Quadric>|
        {
            &&& #[trigger] added_at(k, q, t[0], w, x)
            &&& #[trigger] added_at(k, x, t[1], w, y)
            &&& added_at(k, y, t[2], w, q2)
        }
}

/// Whether `history` adds up the quadrics of the triangles at their corners, one
/// triangle after the other.
pub open spec fn quadric_history<K: MeshNumerics>(
    k: &K,
    vertices: Seq<Point3>,
    tris: Seq<[u32; 3]>,
    history: Seq<Seq<Quadric>>,
) -> bool {
    &&& history.len() > 0
    &&& history[0].len() == vertices.len()
    &&& exists|z: Quadric| #[trigger]
        call_ensures(K::zero_quadric, (k,), z) && history[0] == Seq::new(vertices.len(), |v: int| z)
    &&& forall|i: int|
        0 <= i < history.len() - 1 ==> #[trigger] quadric_step(
            k,
            vertices,
            tris[i],
            history[i],
            history[i + 1],
        )
}

pub open spec fn quadric_step<K: MeshNumerics>(
    k: &K,
    vertices: Seq<Point3>,
    t: [u32; 3],
    q: Seq<Quadric>,
    q2: Seq<Quadric>,
) -> bool {
    exists|w: Option<Quadric>|
        {
            &&& #[trigger] triangle_quadric(
                k,
                vertices[t[0] as int],
                vertices[t[1] as int],
                vertices[t[2] as int],
                w,
            )
            &&& match w {
                None => q2 == q,
                Some(w) => added_at_corners(k, q, t, w, q2),
            }
        }
}

/// Whether `q` holds for each vertex the sum of the quadrics of its triangles.
pub open spec fn vertex_quadrics<K: MeshNumerics>(
    k: &K,
    vertices: Seq<Point3>,
    tris: Seq<[u32; 3]>,
    q: Seq<Quadric>,
) -> bool {
    exists|history: Seq<Seq<Quadric>>|
        {
            &&& #[trigger] quadric_history(k, vertices, tris, history)
            &&& history.len() == tris.len() + 1
            &&& history.last() == q
        }
}

/// Adds the quadric of a triangle at its corners.
fn add_triangle_quadric<K: MeshNumerics>(k: &K, vertices: &Vec<Point3>, t: [u32; 3], q: &mut Vec<Quadric>)
    requires
        t[0] < vertices@.len(),
        t[1] < vertices@.len(),
        t[2] < vertices@.len(),
        old(q)@.len() == vertices@.len(),
    ensures
        final(q)@.len() == old(q)@.len(),
        quadric_step(k, vertices@, t, old(q)@, final(q)@),
{
    let w = compute_triangle_quadric(
        k,
        vertices[t[0] as usize],
        vertices[t[1] as usize],
        vertices[t[2] as usize],
    );
    let ghost q0 = q@;
    if let Some(w) = w {
        let a = k.quadric_sum(q[t[0] as usize], w);
        q.set(t[0] as usize, a);
        let ghost q1 = q@;
        let b = k.quadric_sum(q[t[1] as usize], w);
        q.set(t[1] as usize, b);
        let ghost q2 = q@;
        let c = k.quadric_sum(q[t[2] as usize], w);
        q.set(t[2] as usize, c);
        assert(added_at(k, q0, t[0], w, q1));
        assert(added_at(k, q1, t[1], w, q2));
        assert(added_at(k, q2, t[2], w, q@));
    }
}

fn compute_vertex_quadrics<K: MeshNumerics>(k: &K, vertices: &Vec<Point3>, tris: &Vec<[u32; 3]>) -> (r: Vec<
    Quadric,
>)
    requires
        mesh::corners_within(tris@, vertices@.len()),
    ensures
        r@.len() == vertices@.len(),
        vertex_quadrics(k, vertices@, tris@, r@),
{
    let z = k.zero_quadric();
    let mut q: Vec<Quadric> = Vec::new();
    for v in 0..vertices.len()
        invariant
            q@ == Seq::new(v as nat, |u: int| z),
    {
        q.push(z);
    }
    let ghost mut history: Seq<Seq<Quadric>> = seq![q@];
    assert(call_ensures(K::zero_quadric, (k,), z) && history[0] =~= Seq::new(vertices@.len(), |v: int| z));
    for i in 0..tris.len()
        invariant
            mesh::corners_within(tris@, vertices@.len()),
            q@.len() == vertices@.len(),
            history.len() == i + 1,
            history.last() == q@,
            quadric_history(k, vertices@, tris@, history),
    {
        let t: [u32; 3] = tris[i];
        assert(tris@[i as int][0] < vertices@.len() && tris@[i as int][1] < vertices@.len()
            && tris@[i as int][2] < vertices@.len());
        let ghost q0 = q@;
        add_triangle_quadric(k, vertices, t, &mut q);
        proof {
            let h0 = history;
            history = history.push(q@);
            assert(quadric_step(k, vertices@, t, q0, q@));
            assert forall|j: int| 0 <= j < history.len() - 1 implies #[trigger] quadric_step(
                k,
                vertices@,
                tris@[j],
                history[j],
                history[j + 1],
            ) by {
                if j < i {
                    assert(quadric_step(k, vertices@, tris@[j], h0[j], h0[j + 1]));
                }
            }
            assert(history[0] == h0[0]);
        }
    }
    q
}

// ── Edge length ──

/// The weight of a vertex where there is none to keep.
#[derive(Clone, Copy)]
pub struct Unweighted;

/// Collapses the shortest edge to its midpoint.
pub struct LengthMetric<'a, K> {
    pub k: &'a K,
}

impl<'a, K: MeshNumerics> EdgeMetric for LengthMetric<'a, K> {
    type Weight = Unweighted;

    fn propose(&self, pa: Point3, pb: Point3, wa: Unweighted, wb: Unweighted) -> (r: (Real, Point3))
        ensures
            call_ensures(K::distance, (self.k, pa, pb), r.0),
            call_ensures(K::midpoint, (self.k, pa, pb), r.1),
    {
        (self.k.distance(pa, pb), self.k.midpoint(pa, pb))
    }

    fn place(&self, pa: Point3, pb: Point3, target: Point3) -> (r: Point3)
        ensures
            call_ensures(K::midpoint, (self.k, pa, pb), r),
    {
        self.k.midpoint(pa, pb)
    }

    fn combine(&self, wa: Unweighted, wb: Unweighted) -> (r: Unweighted) {
        wa
    }
}

// ── Edge-collapse methods ──

/// Whether `r` is what a run of collapses down to `target` triangles leaves of the mesh, with the
/// given materials.
pub open spec fn collapsed<K: MeshNumerics, M: EdgeMetric>(
    k: &K,
    m: &M,
    mesh: MeshView,
    weights: Seq<M::Weight>,
    target: int,
    materials: Seq<MaterialView>,
    r: MeshView,
) -> bool {
    exists|trace: Seq<Surface<M::Weight>>|
        {
            &&& #[trigger] collapse::reduction(m, mesh.vertices, weights, mesh.indices, target, trace)
            &&& compacted(
                k,
                trace.last().positions,
                trace.last().tris,
                trace.last().alive,
                materials,
                r,
            )
        }
}

/// Runs collapses down to `target` triangles.
fn collapse_mesh<K: MeshNumerics, M: EdgeMetric>(
    k: &K,
    m: &M,
    mesh: &MeshData,
    weights: Vec<M::Weight>,
    target: usize,
    materials: Vec<Material>,
) -> (r: MeshData)
    requires
        mesh@.wf(),
        weights@.len() == mesh@.vertices.len(),
    ensures
        collapsed(k, m, mesh@, weights@, target as int, mesh::materials_view(materials@), r@),
        tidy(r@),
        r@.indices.len() <= target,
        r@.indices.len() <= mesh@.indices.len(),
        r@.vertices.len() <= mesh@.vertices.len(),
{
    let ghost w = weights@;
    let c = Collapser::run(m, &mesh.vertices, weights, &mesh.indices, target);
    proof {
        let trace = choose|trace: Seq<Surface<M::Weight>>| #[trigger]
            collapse::reduction(m, mesh@.vertices, w, mesh@.indices, target as int, trace) && trace.last()
                == c.surface();
        quotient::reduction_is_a_quotient(m, mesh@.vertices, w, mesh@.indices, target as int, trace, trace.len() - 1);
    }
    let (positions, tris, alive) = c.into_parts();
    let ghost kept = mesh::materials_view(materials@);
    let r = compact_mesh(k, &positions, &tris, &alive, materials);
    proof {
        compacted_is_tidy(k, positions@, tris@, alive@, kept, r@);
        collapse::count_true_bounds(alive@, alive@.len() as int);
        collapsing_meets_target(k, m, mesh@, w, target as int, kept, r@);
    }
    r
}

/// What is left of a mesh has no more triangles than wanted.
pub proof fn collapsing_meets_target<K: MeshNumerics, M: EdgeMetric>(
    k: &K,
    m: &M,
    mesh: MeshView,
    weights: Seq<M::Weight>,
    target: int,
    materials: Seq<MaterialView>,
    r: MeshView,
)
    requires
        mesh.wf(),
        0 <= target,
        collapsed(k, m, mesh, weights, target, materials, r),
    ensures
        r.indices.len() <= target,
{
    let trace = choose|trace: Seq<Surface<M::Weight>>|
        {
            &&& #[trigger] collapse::reduction(m, mesh.vertices, weights, mesh.indices, target, trace)
            &&& compacted(
                k,
                trace.last().positions,
                trace.last().tris,
                trace.last().alive,
                materials,
                r,
            )
        };
    let s = trace.last();
    quotient::reduction_meets_target(m, mesh.vertices, weights, mesh.indices, target, trace);
    compacted_is_tidy(k, s.positions, s.tris, s.alive, materials, r);
    if collapse::live_count(s) > target {
        let n = s.tris.len() as int;
        let kept = kept_tris(s.tris, s.alive, n);
        kept_tris_members(s.tris, s.alive, n);
        if kept.len() > 0 {
            assert(!mesh::degenerate(kept[0]));
            let j = choose|j: int| 0 <= j < n && s.alive[j] && #[trigger] s.tris[j] == kept[0];
            assert(quotient::stands(s, j));
        }
    }
}

/// Whether a mesh can be reduced to `ratio` of its triangles: unless it comes back as it was, its
/// parts have to fit together.
pub open spec fn reducible(mesh: MeshView, ratio: Real) -> bool {
    mesh.indices.len() <= 4 || Real::one().at_most(ratio) || mesh.wf()
}

/// Whether decimation by quadric error gives `r`.
pub open spec fn qem_result<K: MeshNumerics>(k: &K, mesh: MeshView, ratio: Real, r: MeshView) -> bool {
    let c = ratio.clamped(Real::zero(), Real::one());
    if mesh.indices.len() <= 4 || Real::one().at_most(c) {
        r == mesh
    } else {
        exists|target: usize|
            {
                &&& #[trigger] call_ensures(K::scaled_count, (k, mesh.indices.len() as usize, c), target)
                &&& r.indices.len() <= target
                &&& if target >= mesh.indices.len() {
                    r == mesh
                } else {
                    exists|weights: Seq<Quadric>|
                        {
                            &&& #[trigger] vertex_quadrics(k, mesh.vertices, mesh.indices, weights)
                            &&& collapsed(k, &QemMetric { k }, mesh, weights, target as int, Seq::empty(), r)
                        }
                }
            }
    }
}

/// Reduces a mesh to at most `target_ratio` of its triangles by quadric error; what is left of it
/// has no materials.
fn decimate_qem<K: MeshNumerics>(k: &K, mesh: &MeshData, target_ratio: Real) -> (r: MeshData)
    requires
        reducible(mesh@, target_ratio),
    ensures
        qem_result(k, mesh@, target_ratio, r@),
        r@ == mesh@ || tidy(r@),
        r@.indices.len() <= mesh@.indices.len(),
        r@.vertices.len() <= mesh@.vertices.len(),
{
    let n: usize = mesh.num_triangles();
    let ratio = target_ratio.clamp(Real::zero(), Real::one());
    if n <= 4 || Real::one().le(ratio) {
        return mesh.clone();
    }
    let target: usize = k.scaled_count(n, ratio);
    assert(call_ensures(K::scaled_count, (k, n, ratio), target));
    if target >= n {
        return mesh.clone();
    }
    let weights = compute_vertex_quadrics(k, &mesh.vertices, &mesh.indices);
    let ghost w = weights@;
    let m = QemMetric { k };
    let none: Vec<Material> = Vec::new();
    assert(mesh::materials_view(none@) =~= Seq::empty());
    let r = collapse_mesh(k, &m, mesh, weights, target, none);
    assert(vertex_quadrics(k, mesh@.vertices, mesh@.indices, w) && collapsed(
        k,
        &m,
        mesh@,
        w,
        target as int,
        Seq::empty(),
        r@,
    ));
    r
}

/// Whether decimation by edge length gives `r`.
pub open spec fn edge_length_result<K: MeshNumerics>(
    k: &K,
    mesh: MeshView,
    ratio: Real,
    r: MeshView,
) -> bool {
    let c = ratio.clamped(Real::zero(), Real::one());
    if mesh.indices.len() <= 4 || Real::one().at_most(c) {
        r == mesh
    } else {
        exists|target: usize|
            {
                &&& #[trigger] call_ensures(K::scaled_count, (k, mesh.indices.len() as usize, c), target)
                &&& r.indices.len() <= target
                &&& if target >= mesh.indices.len() {
                    r == mesh
                } else {
                    collapsed(
                        k,
                        &LengthMetric { k },
                        mesh,
                        Seq::new(mesh.vertices.len(), |i: int| Unweighted),
                        target as int,
                        mesh.materials,
                        r,
                    )
                }
            }
    }
}

/// Reduces a mesh to about `target_ratio` of its triangles, shortest edges first.
fn decimate_edge_length<K: MeshNumerics>(k: &K, mesh: &MeshData, target_ratio: Real) -> (r: MeshData)
    requires
        reducible(mesh@, target_ratio),
    ensures
        edge_length_result(k, mesh@, target_ratio, r@),
        r@ == mesh@ || tidy(r@),
        r@.indices.len() <= mesh@.indices.len(),
        r@.vertices.len() <= mesh@.vertices.len(),
{
    let n: usize = mesh.num_triangles();
    let ratio = target_ratio.clamp(Real::zero(), Real::one());
    if n <= 4 || Real::one().le(ratio) {
        return mesh.clone();
    }
    let target: usize = k.scaled_count(n, ratio);
    assert(call_ensures(K::scaled_count, (k, n, ratio), target));
    if target >= n {
        return mesh.clone();
    }
    let mut weights: Vec<Unweighted> = Vec::new();
    for v in 0..mesh.vertices.len()
        invariant
            weights@ == Seq::new(v as nat, |i: int| Unweighted),
    {
        weights.push(Unweighted);
    }
    let materials = clone_materials(&mesh.materials);
    collapse_mesh(k, &LengthMetric { k }, mesh, weights, target, materials)
}

// ── Choosing a method ──

/// Whether decimation by the given method gives `r`.
pub open spec fn decimation<K: MeshNumerics>(
    k: &K,
    mesh: MeshView,
    ratio: Real,
    method: DecimationMethod,
    r: MeshView,
) -> bool {
    match method {
        DecimationMethod::Qem => qem_result(k, mesh, ratio, r),
        DecimationMethod::EdgeLength => edge_length_result(k, mesh, ratio, r),
        DecimationMethod::VertexClustering => cluster::cluster_result(k, mesh, ratio, r),
    }
}

/// Reduces a mesh to about `target_ratio` of its triangles, a ratio outside of
/// zero to one counting as the nearer of the two.
///
/// Vertex normals, texture coordinates and submeshes are not kept, unless the
/// mesh comes back as it was: because it has no more than four triangles, or
/// because no fewer are wanted.
pub fn decimate_with<K: MeshNumerics>(
    k: &K,
    mesh: &MeshData,
    target_ratio: Real,
    method: DecimationMethod,
) -> (r: MeshData)
    requires
        reducible(mesh@, target_ratio),
    ensures
        decimation(k, mesh@, target_ratio, method, r@),
        r@ == mesh@ || tidy(r@),
        r@.indices.len() <= mesh@.indices.len(),
        r@.vertices.len() <= mesh@.vertices.len(),
        mesh@.indices.len() <= 4 ==> r@ == mesh@,
        Real::one().at_most(target_ratio) ==> r@ == mesh@,
{
    match method {
        DecimationMethod::Qem => decimate_qem(k, mesh, target_ratio),
        DecimationMethod::EdgeLength => decimate_edge_length(k, mesh, target_ratio),
        DecimationMethod::VertexClustering => decimate_vertex_clustering(k, mesh, target_ratio),
    }
}

/// Reduces a mesh to about `target_ratio` of its triangles by quadric error.
pub fn decimate<K: MeshNumerics>(k: &K, mesh: &MeshData, target_ratio: Real) -> (r: MeshData)
    requires
        reducible(mesh@, target_ratio),
    ensures
        decimation(k, mesh@, target_ratio, DecimationMethod::Qem, r@),
        r@ == mesh@ || tidy(r@),
        r@.indices.len() <= mesh@.indices.len(),
        r@.vertices.len() <= mesh@.vertices.len(),
        mesh@.indices.len() <= 4 ==> r@ == mesh@,
        Real::one().at_most(target_ratio) ==> r@ == mesh@,
{
    decimate_qem(k, mesh, target_ratio)
}

impl MeshData {
    /// Reduces the mesh to about `target_ratio` of its triangles by quadric error.
    pub fn decimate<K: MeshNumerics>(&self, k: &K, target_ratio: Real) -> (r: MeshData)
        requires
            reducible(self@, target_ratio),
        ensures
            decimation(k, self@, target_ratio, DecimationMethod::Qem, r@),
            r@ == self@ || tidy(r@),
            r@.indices.len() <= self@.indices.len(),
            r@.vertices.len() <= self@.vertices.len(),
            self@.indices.len() <= 4 ==> r@ == self@,
            Real::one().at_most(target_ratio) ==> r@ == self@,
    {
        decimate(k, self, target_ratio)
    }

    /// Reduces the mesh to about `target_ratio` of its triangles by the given method.
    pub fn decimate_with<K: MeshNumerics>(&self, k: &K, target_ratio: Real, method: DecimationMethod) -> (r:
        MeshData)
        requires
            reducible(self@, target_ratio),
        ensures
            decimation(k, self@, target_ratio, method, r@),
            r@ == self@ || tidy(r@),
            r@.indices.len() <= self@.indices.len(),
            r@.vertices.len() <= self@.vertices.len(),
            self@.indices.len() <= 4 ==> r@ == self@,
            Real::one().at_most(target_ratio) ==> r@ == self@,
    {
        decimate_with(k, self, target_ratio, method)
    }
}

// ── What the quadric error decides ──

/// Whether quadrics are added and evaluated alike each time.
pub open spec fn quadrics_alike<K: MeshNumerics>(k: &K) -> bool {
    &&& forall|a: Quadric, b: Quadric, x: Quadric, y: Quadric| #[trigger]
        call_ensures(K::quadric_sum, (k, a, b), x) && #[trigger] call_ensures(K::quadric_sum, (k, a, b), y) ==> x == y
    &&& forall|q: Quadric, p: Point3, x: Real, y: Real| #[trigger]
        call_ensures(K::quadric_error, (k, q, p), x) && #[trigger] call_ensures(K::quadric_error, (k, q, p), y)
            ==> x == y
}

/// Whether `e` is the error of a vertex at `p` that is merged from two with the quadrics `wa` and `wb`.
pub open spec fn merge_error<K: MeshNumerics>(k: &K, wa: Quadric, wb: Quadric, p: Point3, e: Real) -> bool {
    exists|q: Quadric| #[trigger]
        call_ensures(K::quadric_sum, (k, wa, wb), q) && call_ensures(K::quadric_error, (k, q, p), e)
}

/// Whether a merged vertex has no error; one below zero is due to rounding.
pub open spec fn harmless(e: Real) -> bool {
    e.at_most(Real::zero())
}

/// Of two proposals of the quadric method, the one whose merged vertex has the greater error does not have
/// the smaller cost, and one that does no harm costs no more than any other.  One that does more harm than
/// another costs more.  No cost is negative.
pub proof fn greater_errors_cost_more<K: MeshNumerics>(
    k: &K,
    pa: Point3,
    pb: Point3,
    wa: Quadric,
    wb: Quadric,
    r: (Real, Point3),
    e: Real,
    pc: Point3,
    pd: Point3,
    wc: Quadric,
    wd: Quadric,
    s: (Real, Point3),
    f: Real,
)
    requires
        quadrics_alike(k),
        call_ensures(QemMetric::<K>::propose, (&QemMetric { k }, pa, pb, wa, wb), r),
        call_ensures(QemMetric::<K>::propose, (&QemMetric { k }, pc, pd, wc, wd), s),
        merge_error(k, wa, wb, r.1, e),
        merge_error(k, wc, wd, s.1, f),
    ensures
        !f.nan() && e.at_most(f) ==> !s.0.below(r.0),
        harmless(e) ==> !s.0.below(r.0),
        e.below(f) && !harmless(f) ==> r.0.below(s.0),
        Real::zero().at_most(r.0),
{
    proposal_costs_its_error(k, pa, pb, wa, wb, r, e);
    proposal_costs_its_error(k, pc, pd, wc, wd, s, f);
}

proof fn proposal_costs_its_error<K: MeshNumerics>(
    k: &K,
    pa: Point3,
    pb: Point3,
    wa: Quadric,
    wb: Quadric,
    r: (Real, Point3),
    e: Real,
)
    requires
        quadrics_alike(k),
        call_ensures(QemMetric::<K>::propose, (&QemMetric { k }, pa, pb, wa, wb), r),
        merge_error(k, wa, wb, r.1, e),
    ensures
        Real::zero().below(e) ==> r.0 == e,
        !Real::zero().below(e) ==> r.0.same(Real::zero()),
{
    assert(qem_proposal(k, pa, pb, wa, wb, r));
    let (q, x) = choose|q: Quadric, x: Real|
        {
            &&& #[trigger] call_ensures(K::quadric_sum, (k, wa, wb), q)
            &&& optimal(k, q, pa, pb, r.1)
            &&& #[trigger] call_ensures(K::quadric_error, (k, q, r.1), x)
            &&& r.0 == x.larger(Real::zero())
        };
    assert(x == e);
}

/// Whether the edge from `x` to `y` can be merged into a vertex whose error, if it is less than `e`,
/// leaves `e` harmless.
pub open spec fn no_better_edge<K: MeshNumerics>(k: &K, s: Surface<Quadric>, x: u32, y: u32, e: Real) -> bool {
    let (a, b) = collapse::edge_key_spec(x, y);
    exists|p: Point3, f: Real| #[trigger]
        merge_error(k, s.weights[a as int], s.weights[b as int], p, f) && proposes(k, s, x, y, p) && !(f.at_most(e)
            && !e.at_most(f) && !harmless(e))
}

/// Whether the quadric method would place the vertex merged from `x` and `y` at `p`.
pub open spec fn proposes<K: MeshNumerics>(k: &K, s: Surface<Quadric>, x: u32, y: u32, p: Point3) -> bool {
    let (a, b) = collapse::edge_key_spec(x, y);
    exists|q: Quadric| #[trigger]
        call_ensures(K::quadric_sum, (k, s.weights[a as int], s.weights[b as int]), q) && optimal(
            k,
            q,
            s.positions[a as int],
            s.positions[b as int],
            p,
        )
}

/// Whether what `va` and `vb` have been merged into in `s` is one vertex in `t`, which stands where the one
/// merged from them in `before` would have the error `e`, and no edge of a live triangle is better.
pub open spec fn merges_least<K: MeshNumerics>(
    k: &K,
    s: Surface<Quadric>,
    t: Surface<Quadric>,
    before: Surface<Quadric>,
    va: u32,
    vb: u32,
    e: Real,
) -> bool {
    let a = s.rep[va as int];
    let b = s.rep[vb as int];
    &&& a != b
    &&& t.rep == s.rep.map_values(|x: u32| collapse::moved(x, a, b))
    &&& merge_error(k, before.weights[va as int], before.weights[vb as int], t.positions[a as int], e)
    &&& forall|h: int, p: int, q: int|
        #![trigger s.tris[h][p], s.tris[h][q]]
        quotient::stands(s, h) && 0 <= p < q < 3 ==> no_better_edge(k, s, s.tris[h][p], s.tris[h][q], e)
}

/// Every round of the quadric method that changes the surface puts a merged vertex where, when this was
/// proposed, its error was no greater than that of any edge of a live triangle is now.  So an edge that
/// collapses without error is never left waiting for one that collapses with error.
pub proof fn least_errors_come_first<K: MeshNumerics>(
    k: &K,
    vertices: Seq<Point3>,
    weights: Seq<Quadric>,
    tris: Seq<[u32; 3]>,
    target: int,
    trace: Seq<Surface<Quadric>>,
    i: int,
)
    requires
        quadrics_alike(k),
        vertices.len() <= u32::MAX,
        weights.len() == vertices.len(),
        mesh::corners_within(tris, vertices.len()),
        collapse::rounds(&QemMetric { k }, vertices, weights, tris, target, trace),
        0 <= i < trace.len() - 1,
    ensures
        quotient::same_surface(trace[i], trace[i + 1]) || exists|va: u32, vb: u32, j: int, e: Real|
            0 <= j <= i && #[trigger] merges_least(k, trace[i], trace[i + 1], trace[j], va, vb, e),
{
    let m = &QemMetric { k };
    quotient::rounds_take_the_cheapest_edge(m, vertices, weights, tris, target, trace, i);
    if !quotient::same_surface(trace[i], trace[i + 1]) {
        let s = trace[i];
        let t = trace[i + 1];
        let c = choose|c: CollapseCandidate|
            {
                let a = s.rep[c.v_a as int];
                let b = s.rep[c.v_b as int];
                &&& #[trigger] quotient::proposed_by(m, trace, i, c)
                &&& a != b
                &&& call_ensures(
                    QemMetric::<K>::place,
                    (m, s.positions[a as int], s.positions[b as int], c.target),
                    t.positions[a as int],
                )
                &&& t.rep == s.rep.map_values(|x: u32| collapse::moved(x, a, b))
                &&& quotient::no_edge_costs_less(m, s, c.cost)
            };
        let a = s.rep[c.v_a as int];
        let j = choose|j: int| 0 <= j <= i && #[trigger] collapse::proposal(m, trace[j], (c.v_a, c.v_b), c);
        let (wa, wb) = (trace[j].weights[c.v_a as int], trace[j].weights[c.v_b as int]);
        let (pa, pb) = (trace[j].positions[c.v_a as int], trace[j].positions[c.v_b as int]);
        let e = proposal_has_an_error(k, pa, pb, wa, wb, (c.cost, c.target));
        assert(t.positions[a as int] == c.target);
        assert forall|h: int, p: int, q: int|
            #![trigger s.tris[h][p], s.tris[h][q]]
            quotient::stands(s, h) && 0 <= p < q < 3 implies no_better_edge(k, s, s.tris[h][p], s.tris[h][q], e) by {
            let (x, y) = collapse::edge_key_spec(s.tris[h][p], s.tris[h][q]);
            let d = choose|d: CollapseCandidate| #[trigger]
                collapse::proposal(m, s, (x, y), d) && !d.cost.below(c.cost);
            let (wx, wy) = (s.weights[x as int], s.weights[y as int]);
            let (px, py) = (s.positions[x as int], s.positions[y as int]);
            let f = proposal_has_an_error(k, px, py, wx, wy, (d.cost, d.target));
            proposal_costs_its_error(k, pa, pb, wa, wb, (c.cost, c.target), e);
            proposal_costs_its_error(k, px, py, wx, wy, (d.cost, d.target), f);
            assert(merge_error(k, wx, wy, d.target, f));
            assert(proposes(k, s, s.tris[h][p], s.tris[h][q], d.target));
        }
        assert(merges_least(k, trace[i], trace[i + 1], trace[j], c.v_a, c.v_b, e));
    }
}

proof fn proposal_has_an_error<K: MeshNumerics>(
    k: &K,
    pa: Point3,
    pb: Point3,
    wa: Quadric,
    wb: Quadric,
    r: (Real, Point3),
) -> (e: Real)
    requires
        call_ensures(QemMetric::<K>::propose, (&QemMetric { k }, pa, pb, wa, wb), r),
    ensures
        merge_error(k, wa, wb, r.1, e),
        exists|q: Quadric| #[trigger] call_ensures(K::quadric_sum, (k, wa, wb), q) && optimal(k, q, pa, pb, r.1),
{
    assert(qem_proposal(k, pa, pb, wa, wb, r));
    let (q, x) = choose|q: Quadric, x: Real|
        {
            &&& #[trigger] call_ensures(K::quadric_sum, (k, wa, wb), q)
            &&& optimal(k, q, pa, pb, r.1)
            &&& #[trigger] call_ensures(K::quadric_error, (k, q, r.1), x)
            &&& r.0 == x.larger(Real::zero())
        };
    x
}

/// Whether points are found and measured alike each time.
pub open spec fn points_alike<K: MeshNumerics>(k: &K) -> bool {
    &&& forall|a: Point3, b: Point3, x: Point3, y: Point3| #[trigger]
        call_ensures(K::midpoint, (k, a, b), x) && #[trigger] call_ensures(K::midpoint, (k, a, b), y) ==> x == y
    &&& forall|a: Point3, b: Point3, x: Real, y: Real| #[trigger]
        call_ensures(K::distance, (k, a, b), x) && #[trigger] call_ensures(K::distance, (k, a, b), y) ==> x == y
    &&& forall|a: Real, x: Real, y: Real| #[trigger]
        call_ensures(K::tripled, (k, a), x) && #[trigger] call_ensures(K::tripled, (k, a), y) ==> x == y
    &&& forall|q: Quadric, x: Option<Point3>, y: Option<Point3>| #[trigger]
        call_ensures(K::quadric_minimum, (k, q), x) && #[trigger] call_ensures(K::quadric_minimum, (k, q), y)
            ==> x == y
}

/// A merged vertex goes to the point where its quadric is least, if that is closer to the middle of the
/// edge than three times its length, and otherwise to an end or the middle of the edge, where its error is
/// no greater than at the others.
pub proof fn merged_vertices_go_where_the_error_is_least<K: MeshNumerics>(
    k: &K,
    pa: Point3,
    pb: Point3,
    wa: Quadric,
    wb: Quadric,
    r: (Real, Point3),
    q: Quadric,
    least: Option<Point3>,
    mid: Point3,
    length: Real,
    limit: Real,
    apart: Real,
)
    requires
        quadrics_alike(k),
        points_alike(k),
        call_ensures(QemMetric::<K>::propose, (&QemMetric { k }, pa, pb, wa, wb), r),
        call_ensures(K::quadric_sum, (k, wa, wb), q),
        call_ensures(K::quadric_minimum, (k, q), least),
        call_ensures(K::midpoint, (k, pa, pb), mid),
        call_ensures(K::distance, (k, pa, pb), length),
        call_ensures(K::tripled, (k, length), limit),
        least matches Some(p) ==> call_ensures(K::distance, (k, p, mid), apart),
    ensures
        least is Some && apart.below(limit) ==> r.1 == least->0,
        least is None || !apart.below(limit) ==> r.1 == pa || r.1 == pb || r.1 == mid,
        least is None || !apart.below(limit) ==> forall|e: Real, ea: Real, eb: Real, em: Real|
            {
                &&& #[trigger] call_ensures(K::quadric_error, (k, q, r.1), e)
                &&& #[trigger] call_ensures(K::quadric_error, (k, q, pa), ea)
                &&& #[trigger] call_ensures(K::quadric_error, (k, q, pb), eb)
                &&& #[trigger] call_ensures(K::quadric_error, (k, q, mid), em)
                &&& !ea.nan() && !eb.nan() && !em.nan()
            } ==> e.at_most(ea) && e.at_most(eb) && e.at_most(em),
{
    assert(qem_proposal(k, pa, pb, wa, wb, r));
    assert(optimal(k, q, pa, pb, r.1));
    let found = choose|found: Option<Point3>|
        {
            &&& #[trigger] call_ensures(K::quadric_minimum, (k, q), found)
            &&& match found {
                Some(p) => exists|near: bool| #[trigger]
                    near_edge(k, pa, pb, p, near) && if near {
                        r.1 == p
                    } else {
                        best_on_edge(k, q, pa, pb, r.1)
                    },
                None => best_on_edge(k, q, pa, pb, r.1),
            }
        };
    assert(found == least);
    if let Some(p) = least {
        assert forall|near: bool| #[trigger] near_edge(k, pa, pb, p, near) implies near == apart.below(limit) by {
            let (o, len, d, l) = choose|o: Point3, len: Real, d: Real, l: Real|
                {
                    &&& #[trigger] call_ensures(K::midpoint, (k, pa, pb), o)
                    &&& #[trigger] call_ensures(K::distance, (k, pa, pb), len)
                    &&& #[trigger] call_ensures(K::distance, (k, p, o), d)
                    &&& #[trigger] call_ensures(K::tripled, (k, len), l)
                    &&& near == d.below(l)
                };
            assert(o == mid && len == length);
            assert(d == apart && l == limit);
        }
    }
}

/// Every round of the edge length method that changes the surface merges the ends of an edge that, when this
/// was proposed, was no longer than any edge of a live triangle is now.
pub proof fn shortest_edges_come_first<K: MeshNumerics>(
    k: &K,
    vertices: Seq<Point3>,
    weights: Seq<Unweighted>,
    tris: Seq<[u32; 3]>,
    target: int,
    trace: Seq<Surface<Unweighted>>,
    i: int,
)
    requires
        points_alike(k),
        vertices.len() <= u32::MAX,
        weights.len() == vertices.len(),
        mesh::corners_within(tris, vertices.len()),
        collapse::rounds(&LengthMetric { k }, vertices, weights, tris, target, trace),
        0 <= i < trace.len() - 1,
    ensures
        quotient::same_surface(trace[i], trace[i + 1]) || exists|va: u32, vb: u32, j: int, length: Real|
            0 <= j <= i && #[trigger] merges_shortest(k, trace[i], trace[i + 1], trace[j], va, vb, length),
{
    let m = &LengthMetric { k };
    quotient::rounds_take_the_cheapest_edge(m, vertices, weights, tris, target, trace, i);
    if !quotient::same_surface(trace[i], trace[i + 1]) {
        let s = trace[i];
        let t = trace[i + 1];
        let c = choose|c: CollapseCandidate|
            {
                let a = s.rep[c.v_a as int];
                let b = s.rep[c.v_b as int];
                &&& #[trigger] quotient::proposed_by(m, trace, i, c)
                &&& a != b
                &&& call_ensures(
                    LengthMetric::<K>::place,
                    (m, s.positions[a as int], s.positions[b as int], c.target),
                    t.positions[a as int],
                )
                &&& t.rep == s.rep.map_values(|x: u32| collapse::moved(x, a, b))
                &&& quotient::no_edge_costs_less(m, s, c.cost)
            };
        let j = choose|j: int| 0 <= j <= i && #[trigger] collapse::proposal(m, trace[j], (c.v_a, c.v_b), c);
        assert forall|h: int, p: int, q: int, other: Real|
            #![trigger s.tris[h][p], s.tris[h][q], call_ensures(
                K::distance,
                (
                    k,
                    s.positions[collapse::edge_key_spec(s.tris[h][p], s.tris[h][q]).0 as int],
                    s.positions[collapse::edge_key_spec(s.tris[h][p], s.tris[h][q]).1 as int],
                ),
                other,
            )]
            quotient::stands(s, h) && 0 <= p < q < 3 && call_ensures(
                K::distance,
                (
                    k,
                    s.positions[collapse::edge_key_spec(s.tris[h][p], s.tris[h][q]).0 as int],
                    s.positions[collapse::edge_key_spec(s.tris[h][p], s.tris[h][q]).1 as int],
                ),
                other,
            ) implies !other.below(c.cost) by {
            let e = collapse::edge_key_spec(s.tris[h][p], s.tris[h][q]);
            let d = choose|d: CollapseCandidate| #[trigger] collapse::proposal(m, s, e, d) && !d.cost.below(c.cost);
            assert(d.cost == other);
        }
        assert(merges_shortest(k, trace[i], trace[i + 1], trace[j], c.v_a, c.v_b, c.cost));
    }
}

/// Whether what `va` and `vb` have been merged into in `s` is one vertex in `t`, half-way between them, the
/// two were `length` apart in `before`, and no edge of a live triangle is shorter.
pub open spec fn merges_shortest<K: MeshNumerics>(
    k: &K,
    s: Surface<Unweighted>,
    t: Surface<Unweighted>,
    before: Surface<Unweighted>,
    va: u32,
    vb: u32,
    length: Real,
) -> bool {
    let a = s.rep[va as int];
    let b = s.rep[vb as int];
    &&& a != b
    &&& t.rep == s.rep.map_values(|x: u32| collapse::moved(x, a, b))
    &&& call_ensures(K::midpoint, (k, s.positions[a as int], s.positions[b as int]), t.positions[a as int])
    &&& call_ensures(K::distance, (k, before.positions[va as int], before.positions[vb as int]), length)
    &&& forall|h: int, p: int, q: int, other: Real|
        #![trigger s.tris[h][p], s.tris[h][q], call_ensures(
            K::distance,
            (
                k,
                s.positions[collapse::edge_key_spec(s.tris[h][p], s.tris[h][q]).0 as int],
                s.positions[collapse::edge_key_spec(s.tris[h][p], s.tris[h][q]).1 as int],
            ),
            other,
        )]
        quotient::stands(s, h) && 0 <= p < q < 3 && call_ensures(
            K::distance,
            (
                k,
                s.positions[collapse::edge_key_spec(s.tris[h][p], s.tris[h][q]).0 as int],
                s.positions[collapse::edge_key_spec(s.tris[h][p], s.tris[h][q]).1 as int],
            ),
            other,
        ) ==> !other.below(length)
}

/// By the quadric method a vertex has, at every point and in every other way in which quadrics add up, the
/// error of all the vertices that have been merged into it.
pub proof fn quadrics_add_up<K: MeshNumerics>(
    k: &K,
    worth: spec_fn(Quadric) -> real,
    vertices: Seq<Point3>,
    weights: Seq<Quadric>,
    tris: Seq<[u32; 3]>,
    target: int,
    trace: Seq<Surface<Quadric>>,
    i: int,
    r: int,
)
    requires
        forall|a: Quadric, b: Quadric, q: Quadric| #[trigger]
            call_ensures(K::quadric_sum, (k, a, b), q) ==> worth(q) == worth(a) + worth(b),
        vertices.len() <= u32::MAX,
        weights.len() == vertices.len(),
        mesh::corners_within(tris, vertices.len()),
        collapse::rounds(&QemMetric { k }, vertices, weights, tris, target, trace),
        0 <= i < trace.len(),
        0 <= r < vertices.len(),
        trace[i].rep[r] == r,
    ensures
        worth(trace[i].weights[r]) == algebra::total(
            vertices.len() as int,
            |v: int|
                if trace[i].rep[v] == r {
                    worth(weights[v])
                } else {
                    0real
                },
        ),
{
    let m = &QemMetric { k };
    assert(quotient::adds_up(m, worth));
    quotient::weights_add_up(m, worth, vertices, weights, tris, target, trace, i, r);
    algebra::total_same(
        vertices.len() as int,
        quotient::gathered_worth(worth, weights, trace[i].rep, r),
        |v: int|
            if trace[i].rep[v] == r {
                worth(weights[v])
            } else {
                0real
            },
    );
}

/// How many corners of a triangle are the vertex `v`.
pub open spec fn corners_at(t: [u32; 3], v: int) -> int {
    (if t[0] == v {
        1int
    } else {
        0int
    }) + (if t[1] == v {
        1int
    } else {
        0int
    }) + (if t[2] == v {
        1int
    } else {
        0int
    })
}

/// Whether quadrics are worth what `worth` says, in a way in which they add up, and `face` says what the
/// quadric of the plane of a triangle is worth: nothing where the triangle has no area.
pub open spec fn faces_are_worth<K: MeshNumerics>(
    k: &K,
    worth: spec_fn(Quadric) -> real,
    face: spec_fn(Point3, Point3, Point3) -> real,
) -> bool {
    &&& forall|a: Quadric, b: Quadric, q: Quadric| #[trigger]
        call_ensures(K::quadric_sum, (k, a, b), q) ==> worth(q) == worth(a) + worth(b)
    &&& forall|z: Quadric| #[trigger] call_ensures(K::zero_quadric, (k,), z) ==> worth(z) == 0real
    &&& forall|p: Point3, q: Point3, r: Point3, n: Vector3, len: Real|
        #![trigger call_ensures(K::edge_cross, (k, p, q, r), n), call_ensures(K::norm, (k, n), len)]
        call_ensures(K::edge_cross, (k, p, q, r), n) && call_ensures(K::norm, (k, n), len) && len.below(
            Real { bits: TINY_LENGTH },
        ) ==> face(p, q, r) == 0real
    &&& forall|p: Point3, q: Point3, r: Point3, n: Vector3, len: Real, unit: Vector3, w: Quadric|
        #![trigger call_ensures(K::edge_cross, (k, p, q, r), n), call_ensures(K::norm, (k, n), len), call_ensures(K::divided, (k, n, len), unit), call_ensures(K::plane_quadric, (k, unit, p, len), w)]
        call_ensures(K::edge_cross, (k, p, q, r), n) && call_ensures(K::norm, (k, n), len) && !len.below(
            Real { bits: TINY_LENGTH },
        ) && call_ensures(K::divided, (k, n, len), unit) && call_ensures(K::plane_quadric, (k, unit, p, len), w)
            ==> face(p, q, r) == worth(w)
}

/// What the first `n` triangles are worth at the vertex `v`: as often as it is a corner of them.
pub open spec fn faces_at(
    face: spec_fn(Point3, Point3, Point3) -> real,
    vertices: Seq<Point3>,
    tris: Seq<[u32; 3]>,
    v: int,
) -> spec_fn(int) -> real {
    |i: int|
        corners_at(tris[i], v) as real * face(
            vertices[tris[i][0] as int],
            vertices[tris[i][1] as int],
            vertices[tris[i][2] as int],
        )
}

proof fn adding_at_is_exact<K: MeshNumerics>(
    k: &K,
    worth: spec_fn(Quadric) -> real,
    q: Seq<Quadric>,
    v: u32,
    w: Quadric,
    q2: Seq<Quadric>,
    x: int,
)
    requires
        forall|a: Quadric, b: Quadric, q: Quadric| #[trigger]
            call_ensures(K::quadric_sum, (k, a, b), q) ==> worth(q) == worth(a) + worth(b),
        added_at(k, q, v, w, q2),
        v < q.len(),
        0 <= x < q.len(),
    ensures
        worth(q2[x]) == worth(q[x]) + if v == x {
            worth(w)
        } else {
            0real
        },
{
}

/// A vertex has, at every point and in every other way in which quadrics add up, the error of the planes of
/// all triangles at it.
pub proof fn vertices_have_the_quadrics_of_their_faces<K: MeshNumerics>(
    k: &K,
    worth: spec_fn(Quadric) -> real,
    face: spec_fn(Point3, Point3, Point3) -> real,
    vertices: Seq<Point3>,
    tris: Seq<[u32; 3]>,
    q: Seq<Quadric>,
    v: int,
)
    requires
        faces_are_worth(k, worth, face),
        mesh::corners_within(tris, vertices.len()),
        vertex_quadrics(k, vertices, tris, q),
        0 <= v < vertices.len(),
    ensures
        q.len() == vertices.len(),
        worth(q[v]) == algebra::total(
            tris.len() as int,
            |i: int|
                corners_at(tris[i], v) as real * face(
                    vertices[tris[i][0] as int],
                    vertices[tris[i][1] as int],
                    vertices[tris[i][2] as int],
                ),
        ),
{
    let history = choose|history: Seq<Seq<Quadric>>|
        {
            &&& #[trigger] quadric_history(k, vertices, tris, history)
            &&& history.len() == tris.len() + 1
            &&& history.last() == q
        };
    history_has_the_faces(k, worth, face, vertices, tris, history, v, tris.len() as int);
    algebra::total_same(
        tris.len() as int,
        faces_at(face, vertices, tris, v),
        |i: int|
            corners_at(tris[i], v) as real * face(
                vertices[tris[i][0] as int],
                vertices[tris[i][1] as int],
                vertices[tris[i][2] as int],
            ),
    );
}

proof fn history_has_the_faces<K: MeshNumerics>(
    k: &K,
    worth: spec_fn(Quadric) -> real,
    face: spec_fn(Point3, Point3, Point3) -> real,
    vertices: Seq<Point3>,
    tris: Seq<[u32; 3]>,
    history: Seq<Seq<Quadric>>,
    v: int,
    n: int,
)
    requires
        faces_are_worth(k, worth, face),
        mesh::corners_within(tris, vertices.len()),
        quadric_history(k, vertices, tris, history),
        0 <= n < history.len(),
        n <= tris.len(),
        0 <= v < vertices.len(),
    ensures
        history[n].len() == vertices.len(),
        worth(history[n][v]) == algebra::total(n, faces_at(face, vertices, tris, v)),
    decreases n,
{
    let f = faces_at(face, vertices, tris, v);
    if n > 0 {
        let i = n - 1;
        history_has_the_faces(k, worth, face, vertices, tris, history, v, i);
        assert(quadric_step(k, vertices, tris[i], history[i], history[i + 1]));
        assert(algebra::total(n, f) == algebra::total(i, f) + f(i));
        let t = tris[i];
        assert(tris[i][0] < vertices.len() && tris[i][1] < vertices.len() && tris[i][2] < vertices.len());
        let (p0, p1, p2) = (vertices[t[0] as int], vertices[t[1] as int], vertices[t[2] as int]);
        let w = choose|w: Option<Quadric>|
            {
                &&& #[trigger] triangle_quadric(
                    k,
                    vertices[t[0] as int],
                    vertices[t[1] as int],
                    vertices[t[2] as int],
                    w,
                )
                &&& match w {
                    None => history[i + 1] == history[i],
                    Some(w) => added_at_corners(k, history[i], t, w, history[i + 1]),
                }
            };
        let count = corners_at(t, v) as real;
        match w {
            None => {
                assert(face(p0, p1, p2) == 0real);
                assert(count * 0real == 0real);
            },
            Some(w) => {
                assert(face(p0, p1, p2) == worth(w));
                let (x, y) = choose|x: Seq<Quadric>, y: Seq<Quadric>|
                    {
                        &&& #[trigger] added_at(k, history[i], t[0], w, x)
                        &&& #[trigger] added_at(k, x, t[1], w, y)
                        &&& added_at(k, y, t[2], w, history[i + 1])
                    };
                adding_at_is_exact(k, worth, history[i], t[0], w, x, v);
                adding_at_is_exact(k, worth, x, t[1], w, y, v);
                adding_at_is_exact(k, worth, y, t[2], w, history[i + 1], v);
                let z = worth(w);
                assert(0real * z == 0real && 1real * z == z && 2real * z == z + z && 3real * z == z + z + z)
                    by (nonlinear_arith);
                assert(count == 0real || count == 1real || count == 2real || count == 3real);
            },
        }
    } else {
        let z = choose|z: Quadric| #[trigger]
            call_ensures(K::zero_quadric, (k,), z) && history[0] == Seq::new(vertices.len(), |v: int| z);
        assert(history[0][v] == z);
    }
}

} // verus!
