//! Decomposition of meshes into convex hulls.

use vstd::prelude::*;
use crate::mesh;
use crate::numerics;
use crate::text;
use crate::mesh::{copy_list, MeshData, MeshView};
use crate::number::{Point3, Real, Vector3};
use crate::numerics::{compute_face_normal, MeshNumerics};
use crate::text::matches_lowered;

verus! {

/// Nothing has been done yet.
pub const PHASE_NOT_STARTED: u8 = 0;

/// Data is being prepared.
pub const PHASE_PREPARING: u8 = 1;

/// The mesh is being cut into parts.
pub const PHASE_DECOMPOSING: u8 = 2;

/// Hulls are being computed.
pub const PHASE_HULLS: u8 = 3;

/// The result is being built.
pub const PHASE_BUILDING: u8 = 4;

/// Everything has been done.
pub const PHASE_DONE: u8 = 255;

/// Bits of 0.01.
pub const CONCAVITY: u64 = 0x3f847ae147ae147b;

/// The text for a phase.
pub open spec fn phase_text(phase: u8) -> Seq<char> {
    if phase == PHASE_NOT_STARTED {
        "Waiting…"@
    } else if phase == PHASE_PREPARING {
        "Preparing data…"@
    } else if phase == PHASE_DECOMPOSING {
        "Decomposing (V-HACD voxelization)…"@
    } else if phase == PHASE_HULLS {
        "Computing convex hulls…"@
    } else if phase == PHASE_BUILDING {
        "Building output meshes…"@
    } else if phase == PHASE_DONE {
        "Done"@
    } else {
        "Processing…"@
    }
}

/// Human-readable label of a phase.
pub fn phase_label(phase: u8) -> (r: &'static str)
    ensures
        r@ == phase_text(phase),
{
    if phase == PHASE_NOT_STARTED {
        "Waiting…"
    } else if phase == PHASE_PREPARING {
        "Preparing data…"
    } else if phase == PHASE_DECOMPOSING {
        "Decomposing (V-HACD voxelization)…"
    } else if phase == PHASE_HULLS {
        "Computing convex hulls…"
    } else if phase == PHASE_BUILDING {
        "Building output meshes…"
    } else if phase == PHASE_DONE {
        "Done"
    } else {
        "Processing…"
    }
}

/// Ways to decompose a mesh.
#[derive(Clone, Copy, PartialEq, Eq, Structural, Debug, Hash)]
pub enum DecompositionMethod {
    /// Convex hulls of parts.
    Vhacd,
    /// Spheres at the leaves of a binary tree.
    SphereTree,
    /// A box, cylinder or sphere for each convex hull.
    PrimitiveFit,
}

impl DecompositionMethod {
    /// All methods.
    pub const ALL: [DecompositionMethod; 3] = [
        DecompositionMethod::Vhacd,
        DecompositionMethod::SphereTree,
        DecompositionMethod::PrimitiveFit,
    ];

    /// Short human-readable label.
    pub fn label(&self) -> (r: &'static str)
        ensures
            r@ == match *self {
                DecompositionMethod::Vhacd => "V-HACD"@,
                DecompositionMethod::SphereTree => "Sphere Tree"@,
                DecompositionMethod::PrimitiveFit => "Primitive Fit"@,
            },
    {
        match self {
            Self::Vhacd => "V-HACD",
            Self::SphereTree => "Sphere Tree",
            Self::PrimitiveFit => "Primitive Fit",
        }
    }

    /// Description for tooltips.
    pub fn description(&self) -> (r: &'static str)
        ensures
            r@ == match *self {
                DecompositionMethod::Vhacd =>
                "Convex decomposition — high quality, slower (parry3d V-HACD)"@,
                DecompositionMethod::SphereTree => "Sphere approximation — fast, moderate quality"@,
                DecompositionMethod::PrimitiveFit => "V-HACD + fit each hull to Box / Cylinder / Sphere"@,
            },
    {
        match self {
            Self::Vhacd => "Convex decomposition — high quality, slower (parry3d V-HACD)",
            Self::SphereTree => "Sphere approximation — fast, moderate quality",
            Self::PrimitiveFit => "V-HACD + fit each hull to Box / Cylinder / Sphere",
        }
    }

    /// The method that a name stands for, in any mix of capital and small letters.
    pub open spec fn named(s: Seq<char>) -> DecompositionMethod {
        if text::lowers_to(s, "sphere"@) || text::lowers_to(s, "sphere_tree"@) || text::lowers_to(s, "spheretree"@)
            || text::lowers_to(s, "spheres"@) {
            DecompositionMethod::SphereTree
        } else if text::lowers_to(s, "primitive"@) || text::lowers_to(s, "primitive_fit"@) || text::lowers_to(
            s,
            "primitivefit"@,
        ) || text::lowers_to(s, "primitives"@) {
            DecompositionMethod::PrimitiveFit
        } else {
            DecompositionMethod::Vhacd
        }
    }

    /// Reads a method's name, in any mix of capital and small letters; `Vhacd` for any other text.
    pub fn from_str_loose(s: &str) -> (r: Self)
        ensures
            r == Self::named(s@),
    {
        if matches_lowered(s, "sphere") || matches_lowered(s, "sphere_tree") || matches_lowered(
            s,
            "spheretree",
        ) || matches_lowered(s, "spheres") {
            Self::SphereTree
        } else if matches_lowered(s, "primitive") || matches_lowered(s, "primitive_fit")
            || matches_lowered(s, "primitivefit") || matches_lowered(s, "primitives") {
            Self::PrimitiveFit
        } else {
            Self::Vhacd
        }
    }
}

/// Settings of the decomposition into convex hulls.
#[derive(Clone, Copy, PartialEq, Eq, Structural, Debug)]
pub struct VhacdParams {
    /// Largest number of hulls.
    pub max_hulls: u32,
    /// Resolution of the grid.
    pub resolution: u32,
    /// Concavity that a part may have.
    pub concavity: Real,
}

impl Default for VhacdParams {
    fn default() -> (r: Self)
        ensures
            r == (VhacdParams { max_hulls: 16, resolution: 64, concavity: Real { bits: CONCAVITY } }),
    {
        VhacdParams { max_hulls: 16, resolution: 64, concavity: Real { bits: CONCAVITY } }
    }
}

/// Cutting meshes into nearly convex parts in floating point.
///
/// Nothing is assumed of the results.
pub trait ConvexMath {
    /// A part of a mesh.
    type Part;

    /// Cuts a mesh into nearly convex parts.
    fn decompose(&self, points: &Vec<Point3>, indices: &Vec<[u32; 3]>, params: VhacdParams) -> Vec<Self::Part>;

    /// The convex hull of a part of a mesh.
    fn part_hull(&self, part: &Self::Part, points: &Vec<Point3>, indices: &Vec<[u32; 3]>) -> (
        Vec<Point3>,
        Vec<[u32; 3]>,
    );

    /// The convex hull of points.
    fn convex_hull(&self, points: &Vec<Point3>) -> (Vec<Point3>, Vec<[u32; 3]>);
}

// ── Progress ──

/// A message about progress.
#[derive(Clone, Copy, PartialEq, Eq, Structural, Debug)]
pub enum Report {
    /// A phase begins, at no percent.
    Enter(u8),
    /// The phase is another, at the percentage that it was.
    Phase(u8),
    /// So much of the phase is done.
    Percent(u8),
}

/// Who is told about progress.
pub trait Progress {
    /// What has been told.
    spec fn told(&self) -> Seq<Report>;

    /// Tells about progress.
    fn tell(&mut self, r: Report)
        ensures
            final(self).told() == old(self).told().push(r),
    ;
}

/// A list of messages about progress.
#[derive(Clone, Debug)]
pub struct ProgressLog {
    pub reports: Vec<Report>,
}

impl Progress for ProgressLog {
    open spec fn told(&self) -> Seq<Report> {
        self.reports@
    }

    fn tell(&mut self, r: Report) {
        self.reports.push(r);
    }
}

/// Nobody.
pub struct Silent {
    told: Ghost<Seq<Report>>,
}

impl Silent {
    /// Nobody, who has been told nothing.
    pub fn new() -> (r: Self)
        ensures
            r.told() == Seq::<Report>::empty(),
    {
        Silent { told: Ghost(Seq::empty()) }
    }
}

impl Progress for Silent {
    closed spec fn told(&self) -> Seq<Report> {
        self.told@
    }

    fn tell(&mut self, r: Report) {
        self.told = Ghost(self.told@.push(r));
    }
}

/// Who hears about progress while it is made.
///
/// Nothing is assumed of what a listener does.
pub trait Listener {
    /// Hears a message.
    fn hear(&mut self, r: Report);
}

/// Passes every message on to a listener.
pub struct Narrator<L> {
    pub listener: L,
    /// What has been told.
    pub past: Ghost<Seq<Report>>,
}

impl<L: Listener> Narrator<L> {
    /// Has told nothing yet.
    pub fn new(listener: L) -> (r: Self)
        ensures
            r.told() == Seq::<Report>::empty(),
            r.listener == listener,
    {
        Narrator { listener, past: Ghost(Seq::empty()) }
    }
}

impl<L: Listener> Progress for Narrator<L> {
    open spec fn told(&self) -> Seq<Report> {
        self.past@
    }

    fn tell(&mut self, r: Report) {
        self.listener.hear(r);
        self.past = Ghost(self.past@.push(r));
    }
}

/// The messages about the first `n` of `total` items.
pub open spec fn percentages(n: int, total: int) -> Seq<Report> {
    Seq::new(n as nat, |i: int| Report::Percent((i * 100 / at_least_one(total)) as u8))
}

/// The number, or one for none.
pub open spec fn at_least_one(n: int) -> int {
    if n <= 0 {
        1
    } else {
        n
    }
}

/// How much of the items is done before the `i`-th, in percent.
pub fn percentage(i: usize, total: usize) -> (r: u8)
    requires
        i < total,
    ensures
        r == (i * 100 / total as int) as u8,
        r < 100,
{
    let a: u128 = (i as u128) * 100;
    let p: u128 = a / (total as u128);
    assert(p < 100) by (nonlinear_arith)
        requires
            a == i * 100,
            i < total,
            p == a / (total as u128),
    ;
    p as u8
}

// ── Hulls ──

/// Whether `m` is the mesh of a hull, with face normals and nothing else.
pub open spec fn is_hull_mesh<K: MeshNumerics>(k: &K, v: Seq<Point3>, t: Seq<[u32; 3]>, m: MeshView) -> bool {
    &&& m.vertices == v
    &&& m.indices == t
    &&& m.face_normals.len() == t.len()
    &&& forall|i: int|
        0 <= i < t.len() ==> numerics::face_normal(
            k,
            v[t[i][0] as int],
            v[t[i][1] as int],
            v[t[i][2] as int],
            Vector3::zero(),
            #[trigger] m.face_normals[i],
        )
    &&& m.vertex_normals.len() == 0
    &&& m.texcoords.len() == 0
    &&& m.materials.len() == 0
    &&& m.submeshes.len() == 0
}

/// Whether a hull can be made a mesh: it has vertices and triangles between them.
pub open spec fn hull_usable(v: Seq<Point3>, t: Seq<[u32; 3]>) -> bool {
    &&& v.len() >= 3
    &&& t.len() > 0
    &&& mesh::corners_within(t, v.len())
}

/// Tells whether every corner of every triangle is one of `n` vertices.
pub fn test_corners(t: &Vec<[u32; 3]>, n: usize) -> (r: bool)
    ensures
        r == mesh::corners_within(t@, n as nat),
{
    for i in 0..t.len()
        invariant
            forall|j: int, c: int|
                0 <= j < i && 0 <= c < 3 ==> (#[trigger] t@[j][c]) < n,
    {
        let x = t[i];
        if x[0] as usize >= n || x[1] as usize >= n || x[2] as usize >= n {
            assert(t@[i as int][0] >= n || t@[i as int][1] >= n || t@[i as int][2] >= n);
            return false;
        }
    }
    true
}

/// The mesh of a hull.
pub fn mesh_data_from_hull<K: MeshNumerics>(k: &K, vertices: Vec<Point3>, indices: Vec<[u32; 3]>) -> (m: MeshData)
    requires
        hull_usable(vertices@, indices@),
    ensures
        is_hull_mesh(k, vertices@, indices@, m@),
{
    let mut face_normals: Vec<Vector3> = Vec::new();
    for i in 0..indices.len()
        invariant
            hull_usable(vertices@, indices@),
            face_normals@.len() == i,
            forall|j: int|
                0 <= j < i ==> numerics::face_normal(
                    k,
                    vertices@[indices@[j][0] as int],
                    vertices@[indices@[j][1] as int],
                    vertices@[indices@[j][2] as int],
                    Vector3::zero(),
                    #[trigger] face_normals@[j],
                ),
    {
        let t = indices[i];
        assert(t[0] < vertices@.len() && t[1] < vertices@.len() && t[2] < vertices@.len());
        let n = compute_face_normal(
            k,
            vertices[t[0] as usize],
            vertices[t[1] as usize],
            vertices[t[2] as usize],
            Vector3::zero(),
        );
        face_normals.push(n);
    }
    MeshData {
        vertices,
        indices,
        face_normals,
        vertex_normals: Vec::new(),
        texcoords: Vec::new(),
        materials: Vec::new(),
        submeshes: Vec::new(),
    }
}

/// Whether `hulls` are the hulls of the parts of a mesh.
pub open spec fn are_hulls<K: ConvexMath>(
    k: &K,
    points: Vec<Point3>,
    indices: Vec<[u32; 3]>,
    parts: Seq<K::Part>,
    hulls: Seq<(Vec<Point3>, Vec<[u32; 3]>)>,
) -> bool {
    &&& hulls.len() == parts.len()
    &&& forall|i: int|
        0 <= i < parts.len() ==> call_ensures(
            K::part_hull,
            (k, &parts[i], &points, &indices),
            #[trigger] hulls[i],
        )
}

/// Whether `r` are the meshes of those of the first `n` hulls that can be made one, in order.
pub open spec fn are_meshes<K: MeshNumerics>(
    k: &K,
    hulls: Seq<(Vec<Point3>, Vec<[u32; 3]>)>,
    n: int,
    r: Seq<MeshView>,
) -> bool
    decreases n,
{
    if n <= 0 {
        r.len() == 0
    } else if hull_usable(hulls[n - 1].0@, hulls[n - 1].1@) {
        &&& r.len() > 0
        &&& is_hull_mesh(k, hulls[n - 1].0@, hulls[n - 1].1@, r.last())
        &&& are_meshes(k, hulls, n - 1, r.drop_last())
    } else {
        are_meshes(k, hulls, n - 1, r)
    }
}

/// Values of a list of meshes.
pub open spec fn meshes_view(m: Seq<MeshData>) -> Seq<MeshView> {
    m.map_values(|x: MeshData| x@)
}

/// Whether a mesh has a volume to decompose.
pub open spec fn decomposable(m: MeshView) -> bool {
    m.vertices.len() >= 4 && m.indices.len() > 0
}

/// Whether `r` are the convex hulls of the parts of a mesh; `n` is the number of parts.
pub open spec fn is_decomposition<K: MeshNumerics + ConvexMath>(
    k: &K,
    m: MeshView,
    params: VhacdParams,
    n: int,
    r: Seq<MeshView>,
) -> bool {
    if decomposable(m) {
        exists|
            points: Vec<Point3>,
            indices: Vec<[u32; 3]>,
            parts: Vec<K::Part>,
            hulls: Seq<(Vec<Point3>, Vec<[u32; 3]>)>,
        |
            {
                &&& points@ == m.vertices
                &&& indices@ == m.indices
                &&& #[trigger] call_ensures(K::decompose, (k, &points, &indices, params), parts)
                &&& parts@.len() == n
                &&& #[trigger] are_hulls(k, points, indices, parts@, hulls)
                &&& are_meshes(k, hulls, n, r)
            }
    } else {
        n == 0 && r.len() == 0
    }
}

/// What is told about a decomposition of a mesh into `n` parts.
pub open spec fn decomposition_reports(m: MeshView, n: int) -> Seq<Report> {
    decomposition_steps(m, n).push(Report::Enter(PHASE_DONE))
}

/// What is told about the decomposition of a mesh into `n` parts before it is done.
pub open spec fn decomposition_steps(m: MeshView, n: int) -> Seq<Report> {
    if decomposable(m) {
        seq![
            Report::Enter(PHASE_PREPARING),
            Report::Enter(PHASE_DECOMPOSING),
            Report::Enter(PHASE_HULLS),
        ] + percentages(n, n) + seq![Report::Percent(100), Report::Enter(PHASE_BUILDING)] + percentages(
            n,
            n,
        ) + seq![Report::Percent(100)]
    } else {
        seq![Report::Enter(PHASE_PREPARING)]
    }
}

/// Whether a report says that all is done.
pub open spec fn says_done(r: Report) -> bool {
    r == Report::Enter(PHASE_DONE) || r == Report::Phase(PHASE_DONE)
}

/// Nothing says that all is done before the decomposition is.
pub proof fn steps_are_not_done(m: MeshView, n: int, i: int)
    requires
        0 <= i < decomposition_steps(m, n).len(),
    ensures
        !says_done(decomposition_steps(m, n)[i]),
{
}

fn compute_hulls<K: ConvexMath, P: Progress>(
    k: &K,
    points: &Vec<Point3>,
    indices: &Vec<[u32; 3]>,
    parts: &Vec<K::Part>,
    progress: &mut P,
) -> (hulls: Vec<(Vec<Point3>, Vec<[u32; 3]>)>)
    ensures
        are_hulls(k, *points, *indices, parts@, hulls@),
        final(progress).told() == old(progress).told() + percentages(
            parts@.len() as int,
            parts@.len() as int,
        ),
{
    let n: usize = parts.len();
    let ghost start = progress.told();
    let mut hulls: Vec<(Vec<Point3>, Vec<[u32; 3]>)> = Vec::new();
    assert(start + percentages(0, n as int) =~= start);
    for i in 0..n
        invariant
            n == parts@.len(),
            hulls@.len() == i,
            forall|j: int|
                0 <= j < i ==> call_ensures(
                    K::part_hull,
                    (k, &parts@[j], points, indices),
                    #[trigger] hulls@[j],
                ),
            progress.told() == start + percentages(i as int, n as int),
    {
        progress.tell(Report::Percent(percentage(i, n)));
        hulls.push(k.part_hull(&parts[i], points, indices));
        assert(progress.told() =~= start + percentages(i + 1, n as int));
    }
    hulls
}

fn build_meshes<K: MeshNumerics, P: Progress>(
    k: &K,
    hulls: Vec<(Vec<Point3>, Vec<[u32; 3]>)>,
    progress: &mut P,
) -> (r: Vec<MeshData>)
    ensures
        are_meshes(k, hulls@, hulls@.len() as int, meshes_view(r@)),
        forall|i: int| 0 <= i < r@.len() ==> mesh::corners_within((#[trigger] r@[i]).indices@, r@[i].vertices@.len()),
        final(progress).told() == old(progress).told() + percentages(
            hulls@.len() as int,
            hulls@.len() as int,
        ),
{
    let n: usize = hulls.len();
    let ghost start = progress.told();
    let mut r: Vec<MeshData> = Vec::new();
    assert(start + percentages(0, n as int) =~= start);
    assert(meshes_view(r@) =~= Seq::<MeshView>::empty());
    for i in 0..n
        invariant
            n == hulls@.len(),
            are_meshes(k, hulls@, i as int, meshes_view(r@)),
            forall|i: int| 0 <= i < r@.len() ==> mesh::corners_within((#[trigger] r@[i]).indices@, r@[i].vertices@.len()),
            progress.told() == start + percentages(i as int, n as int),
    {
        progress.tell(Report::Percent(percentage(i, n)));
        assert(progress.told() =~= start + percentages(i + 1, n as int));
        let v = &hulls[i].0;
        let t = &hulls[i].1;
        if v.len() >= 3 && t.len() > 0 && test_corners(t, v.len()) {
            let ghost before = r@;
            let m = mesh_data_from_hull(k, copy_list(v), copy_list(t));
            r.push(m);
            assert(meshes_view(r@).drop_last() =~= meshes_view(before));
            assert(meshes_view(r@).last() == m@);
        }
    }
    r
}

/// Splits a mesh into convex hulls, and tells about progress, but not that it is done.
pub fn decompose_with_progress<K: MeshNumerics + ConvexMath, P: Progress>(
    k: &K,
    mesh: &MeshData,
    params: &VhacdParams,
    progress: &mut P,
) -> (r: Vec<MeshData>)
    ensures
        forall|i: int| 0 <= i < r@.len() ==> mesh::corners_within((#[trigger] r@[i]).indices@, r@[i].vertices@.len()),
        exists|n: int| #[trigger]
            is_decomposition(k, mesh@, *params, n, meshes_view(r@)) && final(progress).told()
                == old(progress).told() + decomposition_steps(mesh@, n),
{
    let ghost start = progress.told();
    progress.tell(Report::Enter(PHASE_PREPARING));
    if mesh.vertices.len() < 4 || mesh.indices.len() == 0 {
        let r: Vec<MeshData> = Vec::new();
        assert(meshes_view(r@).len() == 0);
        assert(progress.told() =~= start + decomposition_steps(mesh@, 0));
        assert(is_decomposition(k, mesh@, *params, 0, meshes_view(r@)));
        return r;
    }
    progress.tell(Report::Enter(PHASE_DECOMPOSING));
    let parts = k.decompose(&mesh.vertices, &mesh.indices, *params);
    progress.tell(Report::Enter(PHASE_HULLS));
    let hulls = compute_hulls(k, &mesh.vertices, &mesh.indices, &parts, progress);
    progress.tell(Report::Percent(100));
    progress.tell(Report::Enter(PHASE_BUILDING));
    let ghost all = hulls@;
    let r = build_meshes(k, hulls, progress);
    progress.tell(Report::Percent(100));
    proof {
        let n = parts@.len() as int;
        assert(call_ensures(K::decompose, (k, &mesh.vertices, &mesh.indices, *params), parts));
        assert(are_hulls(k, mesh.vertices, mesh.indices, parts@, all));
        assert(is_decomposition(k, mesh@, *params, n, meshes_view(r@)));
        assert(progress.told() =~= start + decomposition_steps(mesh@, n));
    }
    r
}

/// Decomposes a mesh into convex hulls, and tells about progress.
pub fn vhacd_with_progress<K: MeshNumerics + ConvexMath, P: Progress>(
    k: &K,
    mesh: &MeshData,
    params: &VhacdParams,
    progress: &mut P,
) -> (r: Vec<MeshData>)
    ensures
        forall|i: int| 0 <= i < r@.len() ==> mesh::corners_within((#[trigger] r@[i]).indices@, r@[i].vertices@.len()),
        exists|n: int| #[trigger]
            is_decomposition(k, mesh@, *params, n, meshes_view(r@)) && final(progress).told()
                == old(progress).told() + decomposition_reports(mesh@, n),
{
    let ghost start = progress.told();
    let r = decompose_with_progress(k, mesh, params, progress);
    let ghost n = choose|n: int| #[trigger]
        is_decomposition(k, mesh@, *params, n, meshes_view(r@)) && progress.told() == start + decomposition_steps(
            mesh@,
            n,
        );
    progress.tell(Report::Enter(PHASE_DONE));
    proof {
        assert(progress.told() =~= start + decomposition_reports(mesh@, n));
    }
    r
}

/// Decomposes a mesh into convex hulls.
pub fn vhacd<K: MeshNumerics + ConvexMath>(k: &K, mesh: &MeshData, params: &VhacdParams) -> (r: Vec<MeshData>)
    ensures
        forall|i: int| 0 <= i < r@.len() ==> mesh::corners_within((#[trigger] r@[i]).indices@, r@[i].vertices@.len()),
        exists|n: int| #[trigger] is_decomposition(k, mesh@, *params, n, meshes_view(r@)),
        !decomposable(mesh@) ==> r@.len() == 0,
{
    let mut nobody = Silent::new();
    vhacd_with_progress(k, mesh, params, &mut nobody)
}

/// A mesh does not fall into more hulls than parts.
pub proof fn hulls_are_no_more_than_parts<K: MeshNumerics>(
    k: &K,
    hulls: Seq<(Vec<Point3>, Vec<[u32; 3]>)>,
    n: int,
    r: Seq<MeshView>,
)
    requires
        n >= 0,
        are_meshes(k, hulls, n, r),
    ensures
        r.len() <= n,
    decreases n,
{
    if n > 0 {
        if hull_usable(hulls[n - 1].0@, hulls[n - 1].1@) {
            hulls_are_no_more_than_parts(k, hulls, n - 1, r.drop_last());
        } else {
            hulls_are_no_more_than_parts(k, hulls, n - 1, r);
        }
    }
}

/// Whether points are decomposed alike each time: into as many parts, with the same hulls.
pub open spec fn decomposes_alike<K: ConvexMath>(k: &K) -> bool {
    forall|
        p: Vec<Point3>,
        i: Vec<[u32; 3]>,
        q: Vec<Point3>,
        j: Vec<[u32; 3]>,
        params: VhacdParams,
        a: Vec<K::Part>,
        b: Vec<K::Part>,
    |
        p@ == q@ && i@ == j@ && #[trigger] call_ensures(K::decompose, (k, &p, &i, params), a)
            && #[trigger] call_ensures(K::decompose, (k, &q, &j, params), b) ==> {
            &&& a@.len() == b@.len()
            &&& forall|x: int, h: (Vec<Point3>, Vec<[u32; 3]>), g: (Vec<Point3>, Vec<[u32; 3]>)|
                0 <= x < a@.len() && #[trigger] call_ensures(K::part_hull, (k, &a@[x], &p, &i), h)
                    && #[trigger] call_ensures(K::part_hull, (k, &b@[x], &q, &j), g) ==> h.0@ == g.0@ && h.1@ == g.1@
        }
}

proof fn hull_meshes_repeat_themselves<K: MeshNumerics>(
    k: &K,
    v: Seq<Point3>,
    t: Seq<[u32; 3]>,
    a: MeshView,
    b: MeshView,
)
    requires
        numerics::normals_alike(k),
        is_hull_mesh(k, v, t, a),
        is_hull_mesh(k, v, t, b),
    ensures
        a == b,
{
    assert forall|i: int| 0 <= i < t.len() implies a.face_normals[i] == b.face_normals[i] by {
        let zero = Vector3::zero();
        let (p0, p1, p2) = (v[t[i][0] as int], v[t[i][1] as int], v[t[i][2] as int]);
        assert(numerics::face_normal(k, p0, p1, p2, zero, a.face_normals[i]));
        assert(numerics::face_normal(k, p0, p1, p2, zero, b.face_normals[i]));
    }
    assert(a.face_normals =~= b.face_normals);
    assert(a.vertex_normals =~= b.vertex_normals);
    assert(a.texcoords =~= b.texcoords);
    assert(a.materials =~= b.materials);
    assert(a.submeshes =~= b.submeshes);
}

proof fn meshes_repeat_themselves<K: MeshNumerics>(
    k: &K,
    h: Seq<(Vec<Point3>, Vec<[u32; 3]>)>,
    g: Seq<(Vec<Point3>, Vec<[u32; 3]>)>,
    n: int,
    a: Seq<MeshView>,
    b: Seq<MeshView>,
)
    requires
        numerics::normals_alike(k),
        forall|i: int| 0 <= i < n ==> (#[trigger] h[i]).0@ == g[i].0@ && h[i].1@ == g[i].1@,
        are_meshes(k, h, n, a),
        are_meshes(k, g, n, b),
    ensures
        a == b,
    decreases n,
{
    if n <= 0 {
        assert(a =~= b);
    } else if hull_usable(h[n - 1].0@, h[n - 1].1@) {
        meshes_repeat_themselves(k, h, g, n - 1, a.drop_last(), b.drop_last());
        hull_meshes_repeat_themselves(k, h[n - 1].0@, h[n - 1].1@, a.last(), b.last());
        assert(a =~= a.drop_last().push(a.last()));
        assert(b =~= b.drop_last().push(b.last()));
    } else {
        meshes_repeat_themselves(k, h, g, n - 1, a, b);
    }
}

/// A mesh falls into the same hulls each time, as far as its points are decomposed and its normals
/// are computed alike.
pub proof fn decompositions_repeat_themselves<K: MeshNumerics + ConvexMath>(
    k: &K,
    m: MeshView,
    params: VhacdParams,
    na: int,
    nb: int,
    a: Seq<MeshView>,
    b: Seq<MeshView>,
)
    requires
        numerics::normals_alike(k),
        decomposes_alike(k),
        is_decomposition(k, m, params, na, a),
        is_decomposition(k, m, params, nb, b),
    ensures
        na == nb,
        a == b,
{
    if decomposable(m) {
        let (p, i, x, h) = choose|
            points: Vec<Point3>,
            indices: Vec<[u32; 3]>,
            parts: Vec<K::Part>,
            hulls: Seq<(Vec<Point3>, Vec<[u32; 3]>)>,
        |
            {
                &&& points@ == m.vertices
                &&& indices@ == m.indices
                &&& #[trigger] call_ensures(K::decompose, (k, &points, &indices, params), parts)
                &&& parts@.len() == na
                &&& #[trigger] are_hulls(k, points, indices, parts@, hulls)
                &&& are_meshes(k, hulls, na, a)
            };
        let (q, j, y, g) = choose|
            points: Vec<Point3>,
            indices: Vec<[u32; 3]>,
            parts: Vec<K::Part>,
            hulls: Seq<(Vec<Point3>, Vec<[u32; 3]>)>,
        |
            {
                &&& points@ == m.vertices
                &&& indices@ == m.indices
                &&& #[trigger] call_ensures(K::decompose, (k, &points, &indices, params), parts)
                &&& parts@.len() == nb
                &&& #[trigger] are_hulls(k, points, indices, parts@, hulls)
                &&& are_meshes(k, hulls, nb, b)
            };
        assert(x@.len() == y@.len());
        assert forall|z: int| 0 <= z < na implies (#[trigger] h[z]).0@ == g[z].0@ && h[z].1@ == g[z].1@ by {
            assert(call_ensures(K::part_hull, (k, &x@[z], &p, &i), h[z]));
            assert(call_ensures(K::part_hull, (k, &y@[z], &q, &j), g[z]));
        }
        meshes_repeat_themselves(k, h, g, na, a, b);
    } else {
        assert(a =~= b);
    }
}

impl MeshData {
    /// Decomposes the mesh into convex hulls with the usual settings.
    pub fn decompose_vhacd<K: MeshNumerics + ConvexMath>(&self, k: &K) -> (r: Vec<MeshData>)
        ensures
            forall|i: int| 0 <= i < r@.len() ==> mesh::corners_within((#[trigger] r@[i]).indices@, r@[i].vertices@.len()),
            exists|n: int| #[trigger]
                is_decomposition(
                    k,
                    self@,
                    (VhacdParams {
                        max_hulls: 16,
                        resolution: 64,
                        concavity: Real { bits: CONCAVITY },
                    }),
                    n,
                    meshes_view(r@),
                ),
            !decomposable(self@) ==> r@.len() == 0,
    {
        vhacd(k, self, &VhacdParams::default())
    }

    /// Decomposes the mesh into convex hulls.
    pub fn decompose_vhacd_with<K: MeshNumerics + ConvexMath>(&self, k: &K, params: &VhacdParams) -> (r: Vec<MeshData>)
        ensures
            forall|i: int| 0 <= i < r@.len() ==> mesh::corners_within((#[trigger] r@[i]).indices@, r@[i].vertices@.len()),
            exists|n: int| #[trigger] is_decomposition(k, self@, *params, n, meshes_view(r@)),
            !decomposable(self@) ==> r@.len() == 0,
    {
        vhacd(k, self, params)
    }
}

} // verus!
