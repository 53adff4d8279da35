//! Mesh reduction by merging the vertices in each cell of a grid.

use vstd::prelude::*;
use crate::collapse;
use crate::decimate;
use crate::interner;
use crate::mesh;
use crate::decimate::{keep_used, used_vertices};
use crate::interner::{Interner, Triple};
use crate::mesh::{clone_materials, MaterialView, MeshData, MeshView};
use crate::number::{Point3, Real, Vector3};
use crate::numerics::{MeshNumerics, TINY_LENGTH};

verus! {

/// A grid cell as a triple of words.
pub open spec fn cell_code(c: (i64, i64, i64)) -> Triple {
    (c.0 as u64, c.1 as u64, c.2 as u64)
}

/// Different cells have different codes.
pub proof fn cell_code_is_injective(a: (i64, i64, i64), b: (i64, i64, i64))
    requires
        cell_code(a) == cell_code(b),
    ensures
        a == b,
{
    let (x, y) = (a.0, b.0);
    assert(x as u64 == y as u64 ==> x == y) by (bit_vector);
    let (x, y) = (a.1, b.1);
    assert(x as u64 == y as u64 ==> x == y) by (bit_vector);
    let (x, y) = (a.2, b.2);
    assert(x as u64 == y as u64 ==> x == y) by (bit_vector);
}

/// The first `n` vertices whose cell is `key`, in order.
pub open spec fn members(vertices: Seq<Point3>, keys: Seq<Triple>, key: Triple, n: int) -> Seq<Point3>
    decreases n,
{
    if n <= 0 {
        Seq::empty()
    } else if keys[n - 1] == key {
        members(vertices, keys, key, n - 1).push(vertices[n - 1])
    } else {
        members(vertices, keys, key, n - 1)
    }
}

/// Whether `keys` gives the grid cells of the vertices.
pub open spec fn in_cells<K: MeshNumerics>(
    k: &K,
    vertices: Seq<Point3>,
    lo: Point3,
    extent: Real,
    cells: usize,
    keys: Seq<Triple>,
) -> bool {
    &&& keys.len() == vertices.len()
    &&& forall|v: int|
        0 <= v < vertices.len() ==> in_cell(k, vertices[v], lo, extent, cells, #[trigger] keys[v])
}

pub open spec fn in_cell<K: MeshNumerics>(
    k: &K,
    p: Point3,
    lo: Point3,
    extent: Real,
    cells: usize,
    key: Triple,
) -> bool {
    exists|c: (i64, i64, i64)| #[trigger]
        call_ensures(K::grid_cell, (k, p, lo, extent, cells), c) && key == cell_code(c)
}

/// Whether `c` is the mean of the points.
pub open spec fn is_mean<K: MeshNumerics>(k: &K, points: Seq<Point3>, c: Point3) -> bool {
    exists|list: Vec<Point3>| list@ == points && #[trigger] call_ensures(K::mean, (k, &list), c)
}

/// Whether `centers` are the means of the vertices in each cell.
pub open spec fn centered<K: MeshNumerics>(
    k: &K,
    vertices: Seq<Point3>,
    keys: Seq<Triple>,
    centers: Seq<Point3>,
) -> bool {
    let order = interner::distinct(keys, keys.len() as int);
    &&& centers.len() == order.len()
    &&& forall|g: int|
        0 <= g < order.len() ==> is_mean(
            k,
            members(vertices, keys, order[g], keys.len() as int),
            #[trigger] centers[g],
        )
}

/// Whether `image` is the triangle with each corner replaced by the number of its cell.
pub open spec fn imaged(keys: Seq<Triple>, t: [u32; 3], image: [u32; 3]) -> bool {
    let order = interner::distinct(keys, keys.len() as int);
    forall|c: int|
        0 <= c < 3 ==> (#[trigger] image[c]) < order.len() && order[image[c] as int]
            == keys[t[c] as int]
}

/// Whether `r` is the unit normal of a triangle with three different corners;
/// `None` for any other and where the area vanishes.
pub open spec fn verdict<K: MeshNumerics>(
    k: &K,
    centers: Seq<Point3>,
    t: [u32; 3],
    r: Option<Vector3>,
) -> bool {
    if mesh::degenerate(t) {
        r is None
    } else {
        exists|n: Vector3, len: Real|
            {
                &&& #[trigger] call_ensures(
                    K::edge_cross,
                    (k, centers[t[0] as int], centers[t[1] as int], centers[t[2] as int]),
                    n,
                )
                &&& #[trigger] call_ensures(K::norm, (k, n), len)
                &&& if len.below(Real { bits: TINY_LENGTH }) {
                    r is None
                } else {
                    r is Some && call_ensures(K::divided, (k, n, len), r->0)
                }
            }
    }
}

/// The corners of a triangle in ascending order.
pub open spec fn sorted(t: [u32; 3]) -> Triple {
    let lo = if t[0] <= t[1] && t[0] <= t[2] {
        t[0]
    } else if t[1] <= t[2] {
        t[1]
    } else {
        t[2]
    };
    let hi = if t[0] >= t[1] && t[0] >= t[2] {
        t[0]
    } else if t[1] >= t[2] {
        t[1]
    } else {
        t[2]
    };
    (lo as u64, (t[0] + t[1] + t[2] - lo - hi) as u64, hi as u64)
}

/// Whether a triangle before the `i`-th has a normal and the same corners in some order.
pub open spec fn repeated(images: Seq<[u32; 3]>, normals: Seq<Option<Vector3>>, i: int, key: Triple) -> bool {
    exists|j: int| 0 <= j < i && normals[j] is Some && sorted(#[trigger] images[j]) == key
}

/// Numbers of the triangles among the first `n` that have a normal and repeat none before them.
pub open spec fn survivors(images: Seq<[u32; 3]>, normals: Seq<Option<Vector3>>, n: int) -> Seq<int>
    decreases n,
{
    if n <= 0 {
        Seq::empty()
    } else if normals[n - 1] is Some && !repeated(images, normals, n - 1, sorted(images[n - 1])) {
        survivors(images, normals, n - 1).push(n - 1)
    } else {
        survivors(images, normals, n - 1)
    }
}

/// What is computed on the way from a mesh to its clustering.
pub struct Clustering {
    pub keys: Seq<Triple>,
    pub centers: Seq<Point3>,
    pub images: Seq<[u32; 3]>,
    pub normals: Seq<Option<Vector3>>,
}

/// Whether the steps lead from the mesh to `r` with a grid at `lo`.
pub open spec fn clustered<K: MeshNumerics>(
    k: &K,
    mesh: MeshView,
    lo: Point3,
    extent: Real,
    cells: usize,
    w: Clustering,
    r: MeshView,
) -> bool {
    &&& in_cells(k, mesh.vertices, lo, extent, cells, w.keys)
    &&& centered(k, mesh.vertices, w.keys, w.centers)
    &&& w.images.len() == mesh.indices.len()
    &&& forall|i: int| 0 <= i < w.images.len() ==> imaged(w.keys, mesh.indices[i], #[trigger] w.images[i])
    &&& w.normals.len() == mesh.indices.len()
    &&& forall|i: int| 0 <= i < w.images.len() ==> verdict(k, w.centers, w.images[i], #[trigger] w.normals[i])
    &&& assembled(w, mesh.materials, r)
}

/// Whether `r` consists of the surviving triangles and the vertices that they use.
pub open spec fn assembled(w: Clustering, materials: Seq<MaterialView>, r: MeshView) -> bool {
    let kept = survivors(w.images, w.normals, w.images.len() as int);
    let tris = kept.map_values(|i: int| w.images[i]);
    let used = decimate::used_by(tris, Seq::new(tris.len(), |i: int| true), w.centers.len());
    &&& r.vertices == decimate::kept_vertices(w.centers, used, used.len() as int)
    &&& r.indices.len() == kept.len()
    &&& forall|i: int| 0 <= i < kept.len() ==> decimate::renumbered(used, tris[i], #[trigger] r.indices[i])
    &&& r.face_normals.len() == kept.len()
    &&& forall|i: int|
        0 <= i < kept.len() ==> Some(#[trigger] r.face_normals[i]) == w.normals[kept[i]]
    &&& decimate::bare(materials, r)
}

/// Whether clustering gives `r`.
pub open spec fn cluster_result<K: MeshNumerics>(k: &K, mesh: MeshView, ratio: Real, r: MeshView) -> bool {
    let c = ratio.clamped(Real::zero(), Real::one());
    if mesh.indices.len() <= 4 || Real::one().at_most(c) || mesh.vertices.len() == 0 {
        r == mesh
    } else {
        let (lo, hi) = mesh::bounds(mesh.vertices, mesh.vertices.len() as int);
        exists|extent: Real|
            {
                &&& #[trigger] call_ensures(K::largest_extent, (k, lo, hi), extent)
                &&& if extent.below(Real { bits: TINY_LENGTH }) {
                    r == mesh
                } else {
                    exists|cells: usize, w: Clustering|
                        {
                            &&& #[trigger] call_ensures(
                                K::cells_per_axis,
                                (k, mesh.vertices.len() as usize, c),
                                cells,
                            )
                            &&& #[trigger] clustered(k, mesh, lo, extent, cells, w, r)
                        }
                }
            }
    }
}

/// A cell that has not been met has no members yet.
proof fn no_members(vertices: Seq<Point3>, keys: Seq<Triple>, key: Triple, n: int)
    requires
        0 <= n <= keys.len(),
        forall|v: int| 0 <= v < n ==> (#[trigger] keys[v]) != key,
    ensures
        members(vertices, keys, key, n) == Seq::<Point3>::empty(),
    decreases n,
{
    if n > 0 {
        no_members(vertices, keys, key, n - 1);
    }
}

fn cell_of<K: MeshNumerics>(k: &K, p: Point3, lo: Point3, extent: Real, cells: usize) -> (key: Triple)
    ensures
        in_cell(k, p, lo, extent, cells, key),
{
    let c = k.grid_cell(p, lo, extent, cells);
    assert(call_ensures(K::grid_cell, (k, p, lo, extent, cells), c));
    (c.0 as u64, c.1 as u64, c.2 as u64)
}

/// Sorts the vertices into cells: cell of each vertex, number of each vertex's
/// cell, vertices of each cell.
fn group<K: MeshNumerics>(k: &K, vertices: &Vec<Point3>, lo: Point3, extent: Real, cells: usize) -> (r: (
    Ghost<Seq<Triple>>,
    Vec<u32>,
    Vec<Vec<Point3>>,
))
    requires
        vertices@.len() <= u32::MAX,
    ensures
        in_cells(k, vertices@, lo, extent, cells, r.0@),
        r.1@.len() == vertices@.len(),
        forall|v: int|
            0 <= v < vertices@.len() ==> (#[trigger] r.1@[v]) < interner::distinct(r.0@, r.0@.len() as int).len()
                && interner::distinct(r.0@, r.0@.len() as int)[r.1@[v] as int] == r.0@[v],
        r.2@.len() == interner::distinct(r.0@, r.0@.len() as int).len(),
        forall|g: int|
            0 <= g < r.2@.len() ==> (#[trigger] r.2@[g])@ == members(
                vertices@,
                r.0@,
                interner::distinct(r.0@, r.0@.len() as int)[g],
                r.0@.len() as int,
            ),
{
    let mut keys: Vec<Triple> = Vec::new();
    for v in 0..vertices.len()
        invariant
            keys@.len() == v,
            forall|u: int|
                0 <= u < v ==> in_cell(k, vertices@[u], lo, extent, cells, #[trigger] keys@[u]),
    {
        let key = cell_of(k, vertices[v], lo, extent, cells);
        keys.push(key);
    }
    let n: usize = vertices.len();
    let mut table = Interner::new(n);
    let mut number: Vec<u32> = Vec::new();
    let mut lists: Vec<Vec<Point3>> = Vec::new();
    for v in 0..n
        invariant
            n == vertices@.len(),
            n == keys@.len(),
            n <= u32::MAX,
            table.wf(),
            table@ == interner::distinct(keys@, v as int),
            number@.len() == v,
            forall|u: int|
                0 <= u < v ==> (#[trigger] number@[u]) < interner::distinct(keys@, v as int).len() && interner::distinct(
                    keys@,
                    v as int,
                )[number@[u] as int] == keys@[u],
            lists@.len() == interner::distinct(keys@, v as int).len(),
            forall|g: int|
                0 <= g < lists@.len() ==> (#[trigger] lists@[g])@ == members(
                    vertices@,
                    keys@,
                    interner::distinct(keys@, v as int)[g],
                    v as int,
                ),
    {
        let ghost d0 = interner::distinct(keys@, v as int);
        let ghost d1 = interner::distinct(keys@, v + 1);
        let ghost l0 = lists@;
        let ghost n0 = number@;
        let key = keys[v];
        proof {
            interner::distinct_facts(keys@, v as int);
            interner::distinct_facts(keys@, v + 1);
        }
        let g: usize = table.intern(key);
        if g == lists.len() {
            lists.push(Vec::new());
            proof {
                assert(d0.contains(key) ==> false) by {
                    if d0.contains(key) {
                        assert(d1 == d0);
                    }
                }
                assert forall|u: int| 0 <= u < v implies (#[trigger] keys@[u]) != key by {
                    assert(d0.contains(keys@[u]));
                }
                no_members(vertices@, keys@, key, v as int);
            }
        } else {
            proof {
                assert(d0.contains(key)) by {
                    if !d0.contains(key) {
                        assert(g == d0.len());
                    }
                }
            }
        }
        lists[g].push(vertices[v]);
        number.push(g as u32);
        proof {
            assert forall|h: int| 0 <= h < lists@.len() implies (#[trigger] lists@[h])@ == members(
                vertices@,
                keys@,
                d1[h],
                v + 1,
            ) by {
                if h < l0.len() {
                    assert(d1[h] == d0[h]);
                    assert(l0[h]@ == members(vertices@, keys@, d0[h], v as int));
                }
                if h == g {
                    assert(d1[h] == key);
                } else {
                    assert(d1[h] != key);
                }
            }
            assert forall|u: int| 0 <= u < v + 1 implies (#[trigger] number@[u]) < d1.len()
                && d1[number@[u] as int] == keys@[u] by {
                if u < v {
                    assert(number@[u] == n0[u]);
                    assert(d1[n0[u] as int] == d0[n0[u] as int]);
                }
            }
        }
    }
    (Ghost(keys@), number, lists)
}

fn compute_verdict<K: MeshNumerics>(k: &K, centers: &Vec<Point3>, t: [u32; 3]) -> (r: Option<Vector3>)
    requires
        t[0] < centers@.len(),
        t[1] < centers@.len(),
        t[2] < centers@.len(),
    ensures
        verdict(k, centers@, t, r),
{
    if t[0] == t[1] || t[1] == t[2] || t[0] == t[2] {
        return None;
    }
    let n = k.edge_cross(centers[t[0] as usize], centers[t[1] as usize], centers[t[2] as usize]);
    let len = k.norm(n);
    if len.lt(Real { bits: TINY_LENGTH }) {
        None
    } else {
        Some(k.divided(n, len))
    }
}

fn sort_corners(t: [u32; 3]) -> (r: Triple)
    ensures
        r == sorted(t),
{
    let a: u64 = t[0] as u64;
    let b: u64 = t[1] as u64;
    let c: u64 = t[2] as u64;
    let lo: u64 = if a <= b && a <= c {
        a
    } else if b <= c {
        b
    } else {
        c
    };
    let hi: u64 = if a >= b && a >= c {
        a
    } else if b >= c {
        b
    } else {
        c
    };
    (lo, a + b + c - lo - hi, hi)
}

/// Numbers of the triangles that have a normal and repeat none before them.
fn select(images: &Vec<[u32; 3]>, normals: &Vec<Option<Vector3>>) -> (r: Vec<usize>)
    requires
        normals@.len() == images@.len(),
    ensures
        r@.map_values(|i: usize| i as int) == survivors(images@, normals@, images@.len() as int),
        forall|j: int| 0 <= j < r@.len() ==> (#[trigger] r@[j]) < images@.len() && normals@[r@[j] as int] is Some,
{
    let mut table = Interner::new(images.len());
    let mut r: Vec<usize> = Vec::new();
    for i in 0..images.len()
        invariant
            normals@.len() == images@.len(),
            table.wf(),
            forall|key: Triple| #[trigger] table@.contains(key) <==> repeated(images@, normals@, i as int, key),
            r@.map_values(|i: usize| i as int) == survivors(images@, normals@, i as int),
            forall|j: int|
                0 <= j < r@.len() ==> (#[trigger] r@[j]) < images@.len() && normals@[r@[j] as int] is Some,
    {
        let ghost t0 = table@;
        let ghost r0 = r@;
        if let Some(_) = normals[i] {
            let before: usize = table.len();
            let key = sort_corners(images[i]);
            let g: usize = table.intern(key);
            if g == before {
                proof {
                    assert(!t0.contains(key)) by {
                        if t0.contains(key) {
                            assert(table@ == t0);
                        }
                    }
                }
                r.push(i);
                assert(r@.map_values(|i: usize| i as int) =~= r0.map_values(|i: usize| i as int).push(i as int));
            } else {
                assert(t0.contains(key));
            }
            assert forall|x: Triple| #[trigger] table@.contains(x) <==> (t0.contains(x) || x == key) by {
                if t0.contains(x) {
                    let j = choose|j: int| 0 <= j < t0.len() && t0[j] == x;
                    assert(table@[j] == x);
                }
                if x == key {
                    assert(table@[g as int] == x);
                }
            }
        }
        assert forall|x: Triple| #[trigger] table@.contains(x) <==> repeated(images@, normals@, i + 1, x) by {
            if repeated(images@, normals@, i as int, x) {
                let j = choose|j: int| 0 <= j < i && normals@[j] is Some && sorted(#[trigger] images@[j]) == x;
                assert(sorted(images@[j]) == x);
            }
            if normals@[i as int] is Some && x == sorted(images@[i as int]) {
                assert(repeated(images@, normals@, i + 1, x));
            }
            if repeated(images@, normals@, i + 1, x) {
                let j = choose|j: int| 0 <= j < i + 1 && normals@[j] is Some && sorted(#[trigger] images@[j]) == x;
                if j < i {
                    assert(repeated(images@, normals@, i as int, x));
                }
            }
            assert(t0.contains(x) <==> repeated(images@, normals@, i as int, x));
        }
    }
    r
}

/// A list of `n` times `true`.
fn all_true(n: usize) -> (r: Vec<bool>)
    ensures
        r@ == Seq::new(n as nat, |i: int| true),
{
    let mut r: Vec<bool> = Vec::new();
    for i in 0..n
        invariant
            r@ == Seq::new(i as nat, |j: int| true),
    {
        r.push(true);
    }
    r
}

/// Collects the surviving triangles and the vertices that they use.
fn assemble(
    centers: &Vec<Point3>,
    images: &Vec<[u32; 3]>,
    normals: &Vec<Option<Vector3>>,
    original: &MeshData,
    keys: Ghost<Seq<Triple>>,
) -> (r: MeshData)
    requires
        centers@.len() <= u32::MAX,
        mesh::corners_within(images@, centers@.len()),
        normals@.len() == images@.len(),
        forall|i: int| 0 <= i < images@.len() && normals@[i] is Some ==> !mesh::degenerate(#[trigger] images@[i]),
    ensures
        assembled(
            (Clustering { keys: keys@, centers: centers@, images: images@, normals: normals@ }),
            original@.materials,
            r@,
        ),
        decimate::tidy(r@),
        r@.indices.len() <= images@.len(),
        r@.vertices.len() <= centers@.len(),
{
    let kept = select(images, normals);
    let ghost w = Clustering { keys: keys@, centers: centers@, images: images@, normals: normals@ };
    let ghost ks = survivors(images@, normals@, images@.len() as int);
    let mut tris: Vec<[u32; 3]> = Vec::new();
    let mut face_normals: Vec<Vector3> = Vec::new();
    for j in 0..kept.len()
        invariant
            normals@.len() == images@.len(),
            forall|j: int|
                0 <= j < kept@.len() ==> (#[trigger] kept@[j]) < images@.len()
                    && normals@[kept@[j] as int] is Some,
            tris@.len() == j,
            face_normals@.len() == j,
            forall|i: int| 0 <= i < j ==> (#[trigger] tris@[i]) == images@[kept@[i] as int],
            forall|i: int| 0 <= i < j ==> Some(#[trigger] face_normals@[i]) == normals@[kept@[i] as int],
    {
        let i: usize = kept[j];
        tris.push(images[i]);
        if let Some(n) = normals[i] {
            face_normals.push(n);
        }
    }
    let n: usize = centers.len();
    let alive = all_true(tris.len());
    proof {
        assert forall|i: int| 0 <= i < kept@.len() implies (#[trigger] ks[i]) == kept@[i] by {
            assert(ks[i] == kept@.map_values(|i: usize| i as int)[i]);
        }
        assert(ks.len() == kept@.len());
        assert(tris@ =~= ks.map_values(|i: int| w.images[i]));
        assert forall|i: int, c: int| 0 <= i < tris@.len() && 0 <= c < 3 implies (#[trigger] tris@[i][c])
            < n by {
            assert(images@[kept@[i] as int][c] < n);
        }
    }
    let used = used_vertices(n, &tris, &alive);
    let ghost u = used@;
    let (vertices, number) = keep_used(centers, &used);
    let mut indices: Vec<[u32; 3]> = Vec::new();
    proof {
        survivors_count(images@, normals@, images@.len() as int);
        decimate::kept_vertices_at(centers@, u, n as int);
        collapse::count_true_bounds(u, n as int);
    }
    for i in 0..tris.len()
        invariant
            n == centers@.len(),
            mesh::corners_within(tris@, n as nat),
            alive@ == Seq::new(tris@.len(), |i: int| true),
            u == decimate::used_by(tris@, alive@, n as nat),
            vertices@.len() == collapse::count_true(u, n as int),
            forall|v: int| 0 <= v < n && u[v] ==> collapse::count_true(u, v) < collapse::count_true(u, n as int),
            number@.len() == n,
            forall|v: int| 0 <= v < n && u[v] ==> (#[trigger] number@[v]) == collapse::count_true(u, v),
            forall|j: int| 0 <= j < tris@.len() ==> !mesh::degenerate(#[trigger] tris@[j]),
            indices@.len() == i,
            forall|j: int| 0 <= j < i ==> decimate::renumbered(u, tris@[j], #[trigger] indices@[j]),
            forall|j: int| 0 <= j < i ==> !mesh::degenerate(#[trigger] indices@[j]),
            forall|j: int, c: int| 0 <= j < i && 0 <= c < 3 ==> (#[trigger] indices@[j][c]) < vertices@.len(),
    {
        let t: [u32; 3] = tris[i];
        proof {
            assert(tris@[i as int][0] < n && tris@[i as int][1] < n && tris@[i as int][2] < n);
            let (a, b, c) = (t[0] as int, t[1] as int, t[2] as int);
            assert(decimate::corner_of(tris@[i as int], a) && decimate::corner_of(tris@[i as int], b) && decimate::corner_of(
                tris@[i as int],
                c,
            ));
            assert(u[a] && u[b] && u[c]);
            if collapse::count_true(u, a) == collapse::count_true(u, b) {
                decimate::numbers_distinct(u, a, b);
            }
            if collapse::count_true(u, b) == collapse::count_true(u, c) {
                decimate::numbers_distinct(u, b, c);
            }
            if collapse::count_true(u, a) == collapse::count_true(u, c) {
                decimate::numbers_distinct(u, a, c);
            }
            assert(!mesh::degenerate(tris@[i as int]));
        }
        let t2: [u32; 3] = [number[t[0] as usize], number[t[1] as usize], number[t[2] as usize]];
        let ghost x0 = indices@;
        indices.push(t2);
        assert forall|j: int| 0 <= j < i + 1 implies decimate::renumbered(u, tris@[j], #[trigger] indices@[j])
            && !mesh::degenerate(indices@[j]) by {
            if j < i {
                assert(indices@[j] == x0[j]);
            }
        }
        assert forall|j: int, c: int| 0 <= j < i + 1 && 0 <= c < 3 implies (#[trigger] indices@[j][c])
            < vertices@.len() by {
            if j < i {
                assert(indices@[j][c] == x0[j][c]);
            } else {
                assert(c == 0 || c == 1 || c == 2);
            }
        }
    }
    MeshData {
        vertices,
        indices,
        face_normals,
        vertex_normals: Vec::new(),
        texcoords: Vec::new(),
        materials: clone_materials(&original.materials),
        submeshes: Vec::new(),
    }
}

proof fn survivors_count(images: Seq<[u32; 3]>, normals: Seq<Option<Vector3>>, n: int)
    requires
        0 <= n <= images.len(),
    ensures
        survivors(images, normals, n).len() <= n,
    decreases n,
{
    if n > 0 {
        survivors_count(images, normals, n - 1);
    }
}

/// Reduces a mesh by merging the vertices in each cell of a grid, finer for larger ratios.
pub fn decimate_vertex_clustering<K: MeshNumerics>(k: &K, mesh: &MeshData, target_ratio: Real) -> (r: MeshData)
    requires
        decimate::reducible(mesh@, target_ratio),
    ensures
        cluster_result(k, mesh@, target_ratio, r@),
        r@ == mesh@ || decimate::tidy(r@),
        r@.indices.len() <= mesh@.indices.len(),
        r@.vertices.len() <= mesh@.vertices.len(),
{
    let ratio = target_ratio.clamp(Real::zero(), Real::one());
    if mesh.num_triangles() <= 4 || Real::one().le(ratio) {
        return mesh.clone();
    }
    let (lo, hi) = match mesh.aabb() {
        Some(b) => b,
        None => {
            return mesh.clone();
        },
    };
    let extent = k.largest_extent(lo, hi);
    if extent.lt(Real { bits: TINY_LENGTH }) {
        return mesh.clone();
    }
    let cells: usize = k.cells_per_axis(mesh.num_vertices(), ratio);
    let (Ghost(keys), number, lists) = group(k, &mesh.vertices, lo, extent, cells);
    let ghost order = interner::distinct(keys, keys.len() as int);
    proof {
        interner::distinct_facts(keys, keys.len() as int);
    }
    let mut centers: Vec<Point3> = Vec::new();
    for g in 0..lists.len()
        invariant
            lists@.len() == order.len(),
            forall|h: int|
                0 <= h < lists@.len() ==> (#[trigger] lists@[h])@ == members(
                    mesh@.vertices,
                    keys,
                    order[h],
                    keys.len() as int,
                ),
            centers@.len() == g,
            forall|h: int|
                0 <= h < g ==> is_mean(
                    k,
                    members(mesh@.vertices, keys, order[h], keys.len() as int),
                    #[trigger] centers@[h],
                ),
    {
        let c = k.mean(&lists[g]);
        assert(call_ensures(K::mean, (k, &lists@[g as int]), c));
        centers.push(c);
    }
    let mut images: Vec<[u32; 3]> = Vec::new();
    let mut normals: Vec<Option<Vector3>> = Vec::new();
    for i in 0..mesh.indices.len()
        invariant
            mesh@.wf(),
            keys.len() == mesh@.vertices.len(),
            order == interner::distinct(keys, keys.len() as int),
            centers@.len() == order.len(),
            number@.len() == mesh@.vertices.len(),
            forall|v: int|
                0 <= v < mesh@.vertices.len() ==> (#[trigger] number@[v]) < order.len()
                    && order[number@[v] as int] == keys[v],
            images@.len() == i,
            normals@.len() == i,
            forall|j: int| 0 <= j < i ==> imaged(keys, mesh@.indices[j], #[trigger] images@[j]),
            forall|j: int| 0 <= j < i ==> verdict(k, centers@, images@[j], #[trigger] normals@[j]),
            mesh::corners_within(images@, centers@.len()),
    {
        let t: [u32; 3] = mesh.indices[i];
        assert(mesh@.indices[i as int][0] < mesh@.vertices.len() && mesh@.indices[i as int][1]
            < mesh@.vertices.len() && mesh@.indices[i as int][2] < mesh@.vertices.len());
        let image: [u32; 3] = [number[t[0] as usize], number[t[1] as usize], number[t[2] as usize]];
        let normal = compute_verdict(k, &centers, image);
        let ghost x0 = images@;
        let ghost n0 = normals@;
        images.push(image);
        normals.push(normal);
        assert(imaged(keys, t, image)) by {
            assert forall|c: int| 0 <= c < 3 implies (#[trigger] image[c]) < order.len()
                && order[image[c] as int] == keys[t[c] as int] by {
                assert(c == 0 || c == 1 || c == 2);
            }
        }
        assert forall|j: int, c: int| 0 <= j < i + 1 && 0 <= c < 3 implies (#[trigger] images@[j][c])
            < centers@.len() by {
            if j < i {
                assert(x0[j][c] < centers@.len());
            } else {
                assert(image[c] < order.len());
            }
        }
        assert forall|j: int| 0 <= j < i + 1 implies imaged(keys, mesh@.indices[j], #[trigger] images@[j]) by {
            if j < i {
                assert(images@[j] == x0[j]);
            }
        }
        assert forall|j: int| 0 <= j < i + 1 implies verdict(k, centers@, images@[j], #[trigger] normals@[j]) by {
            if j < i {
                assert(normals@[j] == n0[j]);
            }
        }
    }
    assert forall|i: int| 0 <= i < images@.len() && normals@[i] is Some implies !mesh::degenerate(
        #[trigger] images@[i],
    ) by {
        assert(verdict(k, centers@, images@[i], normals@[i]));
    }
    let r = assemble(&centers, &images, &normals, mesh, Ghost(keys));
    proof {
        let w = Clustering { keys, centers: centers@, images: images@, normals: normals@ };
        assert(centered(k, mesh@.vertices, keys, centers@));
        assert(clustered(k, mesh@, lo, extent, cells, w, r@));
    }
    r
}

} // verus!
