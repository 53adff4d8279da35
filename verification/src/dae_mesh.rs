//! Index lists and numbers of Collada geometries.

use vstd::prelude::*;
use crate::number::{Point2, Point3, Real, Vector3};
use crate::text::same_text;

verus! {

/// Places of position, normal and texture point; the largest word for none.
pub type Corner = (usize, usize, usize);

/// The point turned from the given up axis to z.
pub open spec fn upright(x: Real, y: Real, z: Real, up: Seq<char>) -> Point3 {
    if up == "Z_UP"@ {
        Point3 { x, y, z }
    } else if up == "X_UP"@ {
        Point3 { x: y, y: z, z: x }
    } else {
        Point3 { x, y: z, z: y.negated() }
    }
}

/// Turns a point from the given up axis to z; any other text stands for y.
pub fn fix_up_axis(x: Real, y: Real, z: Real, up: &str) -> (r: Point3)
    ensures
        r == upright(x, y, z, up@),
{
    if same_text(up, "Z_UP") {
        Point3 { x, y, z }
    } else if same_text(up, "X_UP") {
        Point3 { x: y, y: z, z: x }
    } else {
        Point3 { x, y: z, z: y.neg() }
    }
}

/// The points whose coordinates are listed, turned upright; a rest is dropped.
pub open spec fn points(data: Seq<Real>, up: Seq<char>) -> Seq<Point3> {
    Seq::new(data.len() / 3, |i: int| upright(data[3 * i], data[3 * i + 1], data[3 * i + 2], up))
}

/// The vector with the coordinates of a point.
pub open spec fn as_vector(p: Point3) -> Vector3 {
    Vector3 { x: p.x, y: p.y, z: p.z }
}

/// The texture points whose coordinates are listed; a rest is dropped.
pub open spec fn texture_points(data: Seq<Real>) -> Seq<Point2> {
    Seq::new(data.len() / 2, |i: int| Point2 { x: data[2 * i], y: data[2 * i + 1] })
}

/// Groups numbers into points.
pub fn read_points(data: &Vec<Real>, up: &str) -> (r: Vec<Point3>)
    ensures
        r@ == points(data@, up@),
{
    let mut r: Vec<Point3> = Vec::new();
    for i in 0..data.len() / 3
        invariant
            r@ == points(data@, up@).take(i as int),
    {
        r.push(fix_up_axis(data[3 * i], data[3 * i + 1], data[3 * i + 2], up));
        assert(points(data@, up@).take(i as int).push(points(data@, up@)[i as int]) =~= points(
            data@,
            up@,
        ).take(i + 1));
    }
    assert(points(data@, up@).take(data.len() as int / 3) =~= points(data@, up@));
    r
}

/// Groups numbers into vectors.
pub fn read_vectors(data: &Vec<Real>, up: &str) -> (r: Vec<Vector3>)
    ensures
        r@ == points(data@, up@).map_values(|p: Point3| as_vector(p)),
{
    let p = read_points(data, up);
    let mut r: Vec<Vector3> = Vec::new();
    for i in 0..p.len()
        invariant
            r@ == p@.map_values(|p: Point3| as_vector(p)).take(i as int),
    {
        r.push(Vector3 { x: p[i].x, y: p[i].y, z: p[i].z });
        assert(r@ =~= p@.map_values(|p: Point3| as_vector(p)).take(i + 1));
    }
    assert(r@ =~= p@.map_values(|p: Point3| as_vector(p)));
    r
}

/// Groups numbers into texture points.
pub fn read_texture_points(data: &Vec<Real>) -> (r: Vec<Point2>)
    ensures
        r@ == texture_points(data@),
{
    let mut r: Vec<Point2> = Vec::new();
    for i in 0..data.len() / 2
        invariant
            r@ == texture_points(data@).take(i as int),
    {
        r.push(Point2 { x: data[2 * i], y: data[2 * i + 1] });
        assert(r@ =~= texture_points(data@).take(i + 1));
    }
    assert(r@ =~= texture_points(data@));
    r
}

/// The corner whose indices begin at `base`, with the given places of the indices.
pub open spec fn corner_at(
    p: Seq<usize>,
    base: int,
    v_off: Option<usize>,
    n_off: Option<usize>,
    uv_off: Option<usize>,
) -> Corner {
    (
        match v_off {
            Some(o) => p[base + o],
            None => p[base],
        },
        match n_off {
            Some(o) => p[base + o],
            None => usize::MAX,
        },
        match uv_off {
            Some(o) => p[base + o],
            None => usize::MAX,
        },
    )
}

/// The corners of a list of triangles in order.
pub open spec fn corners(tris: Seq<[usize; 9]>) -> Seq<Corner> {
    Seq::new(3 * tris.len(), |c: int| corner_in(tris[c / 3], c % 3))
}

pub open spec fn corner_in(t: [usize; 9], k: int) -> Corner {
    (t[3 * k], t[3 * k + 1], t[3 * k + 2])
}

/// The corners that a list of indices gives, `stride` of them for each: as many as
/// make whole triangles.
pub open spec fn listed_corners(
    p: Seq<usize>,
    stride: int,
    v_off: Option<usize>,
    n_off: Option<usize>,
    uv_off: Option<usize>,
) -> Seq<Corner> {
    Seq::new(
        (3 * (p.len() as int / (3 * stride))) as nat,
        |c: int| corner_at(p, c * stride, v_off, n_off, uv_off),
    )
}

/// Whether the places of the indices lie within the stride.
pub open spec fn offsets_fit(
    stride: int,
    v_off: Option<usize>,
    n_off: Option<usize>,
    uv_off: Option<usize>,
) -> bool {
    &&& stride > 0
    &&& v_off matches Some(o) ==> o < stride
    &&& n_off matches Some(o) ==> o < stride
    &&& uv_off matches Some(o) ==> o < stride
}

fn read_corner(
    p: &Vec<usize>,
    base: usize,
    stride: usize,
    v_off: Option<usize>,
    n_off: Option<usize>,
    uv_off: Option<usize>,
) -> (r: Corner)
    requires
        offsets_fit(stride as int, v_off, n_off, uv_off),
        base + stride <= p@.len(),
    ensures
        r == corner_at(p@, base as int, v_off, n_off, uv_off),
{
    assert(p@.len() == p.len());
    (
        match v_off {
            Some(o) => p[base + o],
            None => p[base],
        },
        match n_off {
            Some(o) => p[base + o],
            None => usize::MAX,
        },
        match uv_off {
            Some(o) => p[base + o],
            None => usize::MAX,
        },
    )
}

proof fn push_corners(tris: Seq<[usize; 9]>, t: [usize; 9])
    ensures
        corners(tris.push(t)) == corners(tris) + seq![corner_in(t, 0), corner_in(t, 1), corner_in(t, 2)],
{
    let l = corners(tris.push(t));
    let r = corners(tris) + seq![corner_in(t, 0), corner_in(t, 1), corner_in(t, 2)];
    assert forall|c: int| 0 <= c < l.len() implies l[c] == r[c] by {
        if c < 3 * tris.len() {
            assert(c / 3 < tris.len());
        } else {
            assert(c / 3 == tris.len());
            assert(c % 3 == c - 3 * tris.len());
        }
    }
    assert(l =~= r);
}

fn triangle(a: Corner, b: Corner, c: Corner) -> (t: [usize; 9])
    ensures
        corner_in(t, 0) == a,
        corner_in(t, 1) == b,
        corner_in(t, 2) == c,
{
    [a.0, a.1, a.2, b.0, b.1, b.2, c.0, c.1, c.2]
}

/// Reads a list of triangles.
pub fn build_triangles_from_p(
    p: &Vec<usize>,
    stride: usize,
    v_off: Option<usize>,
    n_off: Option<usize>,
    uv_off: Option<usize>,
) -> (r: Vec<[usize; 9]>)
    requires
        offsets_fit(stride as int, v_off, n_off, uv_off),
    ensures
        corners(r@) == listed_corners(p@, stride as int, v_off, n_off, uv_off),
{
    let mut r: Vec<[usize; 9]> = Vec::new();
    let ghost all = listed_corners(p@, stride as int, v_off, n_off, uv_off);
    let ghost whole = p@.len() as int / (3 * stride as int);
    let ghost size = 3 * stride as int;
    if stride > p.len() / 3 {
        assert(whole == 0) by (nonlinear_arith)
            requires
                whole == p@.len() as int / (3 * stride as int),
                3 * stride as int > p@.len(),
                p@.len() >= 0,
        ;
        assert(corners(r@) =~= all);
        return r;
    }
    let step: usize = 3 * stride;
    let mut i: usize = 0;
    let ghost mut t: int = 0;
    proof {
        assert(corners(r@) =~= all.take(0));
        vstd::arithmetic::div_mod::lemma_fundamental_div_mod(p@.len() as int, size);
        vstd::arithmetic::div_mod::lemma_mod_bound(p@.len() as int, size);
    }
    while i <= p.len() - step
        invariant
            offsets_fit(stride as int, v_off, n_off, uv_off),
            step == 3 * stride,
            step == size,
            step <= p@.len(),
            i == t * size,
            i <= p@.len(),
            0 <= t <= whole,
            p@.len() == size * whole + p@.len() as int % size,
            0 <= p@.len() as int % size < size,
            whole == p@.len() as int / (3 * stride as int),
            all == listed_corners(p@, stride as int, v_off, n_off, uv_off),
            corners(r@) == all.take(3 * t),
        decreases p@.len() - i,
    {
        let a = read_corner(p, i, stride, v_off, n_off, uv_off);
        let b = read_corner(p, i + stride, stride, v_off, n_off, uv_off);
        let c = read_corner(p, i + 2 * stride, stride, v_off, n_off, uv_off);
        let tri = triangle(a, b, c);
        proof {
            push_corners(r@, tri);
            assert(t < whole) by (nonlinear_arith)
                requires
                    t * size + size <= p@.len(),
                    p@.len() == size * whole + p@.len() as int % size,
                    p@.len() as int % size < size,
                    size > 0,
            ;
            assert(t * (3 * stride as int) == (3 * t) * stride && t * (3 * stride as int) + stride == (3 * t + 1)
                * stride && t * (3 * stride as int) + 2 * stride == (3 * t + 2) * stride) by (nonlinear_arith);
            assert((t + 1) * size == t * size + size) by (nonlinear_arith);
            assert(all.take(3 * t) + seq![a, b, c] =~= all.take(3 * (t + 1)));
            t = t + 1;
        }
        r.push(tri);
        i = i + step;
    }
    proof {
        assert(t == whole) by (nonlinear_arith)
            requires
                t * size > p@.len() - size,
                t <= whole,
                p@.len() == size * whole + p@.len() as int % size,
                0 <= p@.len() as int % size,
                size > 0,
        ;
        assert(all.take(3 * t) =~= all);
    }
    r
}

/// The corner with the given number, or a corner of no geometry where the indices
/// end before it.
pub open spec fn numbered_corner(
    p: Seq<usize>,
    i: int,
    stride: int,
    v_off: Option<usize>,
    n_off: Option<usize>,
    uv_off: Option<usize>,
) -> Corner {
    if i * stride + stride > p.len() {
        (0, usize::MAX, usize::MAX)
    } else {
        corner_at(p, i * stride, v_off, n_off, uv_off)
    }
}

/// The first `m` triangles of a polygon whose first corner has the number `start`, as
/// a fan around that corner.
pub open spec fn fan(
    p: Seq<usize>,
    start: int,
    m: int,
    stride: int,
    v_off: Option<usize>,
    n_off: Option<usize>,
    uv_off: Option<usize>,
) -> Seq<Corner>
    decreases m,
{
    if m <= 0 {
        Seq::empty()
    } else {
        fan(p, start, m - 1, stride, v_off, n_off, uv_off) + seq![
            numbered_corner(p, start, stride, v_off, n_off, uv_off),
            numbered_corner(p, start + m, stride, v_off, n_off, uv_off),
            numbered_corner(p, start + m + 1, stride, v_off, n_off, uv_off),
        ]
    }
}

/// Number of corners of the first `n` polygons.
pub open spec fn corners_before(counts: Seq<usize>, n: int) -> int
    decreases n,
{
    if n <= 0 {
        0
    } else {
        corners_before(counts, n - 1) + counts[n - 1]
    }
}

pub proof fn corners_before_nonneg(counts: Seq<usize>, n: int)
    requires
        n <= counts.len(),
    ensures
        corners_before(counts, n) >= 0,
    decreases n,
{
    if n > 0 {
        corners_before_nonneg(counts, n - 1);
    }
}

/// The fans of the first `n` polygons.
pub open spec fn fans(
    p: Seq<usize>,
    counts: Seq<usize>,
    n: int,
    stride: int,
    v_off: Option<usize>,
    n_off: Option<usize>,
    uv_off: Option<usize>,
) -> Seq<Corner>
    decreases n,
{
    if n <= 0 {
        Seq::empty()
    } else {
        fans(p, counts, n - 1, stride, v_off, n_off, uv_off) + fan(
            p,
            corners_before(counts, n - 1),
            counts[n - 1] - 2,
            stride,
            v_off,
            n_off,
            uv_off,
        )
    }
}

/// Whether `c` is the number `n`, or says that it fits no machine word.
spec fn counts_as(c: Option<usize>, n: int) -> bool {
    match c {
        Some(x) => x == n,
        None => n > usize::MAX,
    }
}

fn advance(c: Option<usize>, k: usize, Ghost(n): Ghost<int>) -> (r: Option<usize>)
    requires
        counts_as(c, n),
    ensures
        counts_as(r, n + k),
{
    match c {
        Some(x) => x.checked_add(k),
        None => None,
    }
}

fn read_numbered(
    p: &Vec<usize>,
    i: Option<usize>,
    stride: usize,
    v_off: Option<usize>,
    n_off: Option<usize>,
    uv_off: Option<usize>,
    Ghost(n): Ghost<int>,
) -> (r: Corner)
    requires
        offsets_fit(stride as int, v_off, n_off, uv_off),
        counts_as(i, n),
        n >= 0,
    ensures
        r == numbered_corner(p@, n, stride as int, v_off, n_off, uv_off),
{
    let x: usize = match i {
        Some(x) => x,
        None => {
            assert(n * stride >= n) by (nonlinear_arith)
                requires
                    stride >= 1,
                    n >= 0,
            ;
            assert(p@.len() == p.len());
            return (0, usize::MAX, usize::MAX);
        },
    };
    let base: usize = match x.checked_mul(stride) {
        Some(b) => b,
        None => {
            assert(p@.len() == p.len());
            return (0, usize::MAX, usize::MAX);
        },
    };
    if stride > p.len() || base > p.len() - stride {
        (0, usize::MAX, usize::MAX)
    } else {
        read_corner(p, base, stride, v_off, n_off, uv_off)
    }
}

/// Reads a list of polygons and cuts each into a fan of triangles.
pub fn build_triangles_from_polylist(
    p: &Vec<usize>,
    vcounts: &Vec<usize>,
    stride: usize,
    v_off: Option<usize>,
    n_off: Option<usize>,
    uv_off: Option<usize>,
) -> (r: Vec<[usize; 9]>)
    requires
        offsets_fit(stride as int, v_off, n_off, uv_off),
    ensures
        corners(r@) == fans(
            p@,
            vcounts@,
            vcounts@.len() as int,
            stride as int,
            v_off,
            n_off,
            uv_off,
        ),
{
    let mut r: Vec<[usize; 9]> = Vec::new();
    let mut cursor: Option<usize> = Some(0);
    assert(corners(r@) =~= fans(p@, vcounts@, 0, stride as int, v_off, n_off, uv_off));
    for j in 0..vcounts.len()
        invariant
            offsets_fit(stride as int, v_off, n_off, uv_off),
            counts_as(cursor, corners_before(vcounts@, j as int)),
            corners_before(vcounts@, j as int) >= 0,
            corners(r@) == fans(p@, vcounts@, j as int, stride as int, v_off, n_off, uv_off),
    {
        let vc: usize = vcounts[j];
        let ghost start = corners_before(vcounts@, j as int);
        let ghost before = corners(r@);
        if vc >= 3 {
            let first = read_numbered(p, cursor, stride, v_off, n_off, uv_off, Ghost(start));
            assert(before + fan(p@, start, 0, stride as int, v_off, n_off, uv_off) =~= before);
            for k in 1..vc - 1
                invariant
                    vc >= 3,
                    offsets_fit(stride as int, v_off, n_off, uv_off),
                    start >= 0,
                    counts_as(cursor, start),
                    first == numbered_corner(p@, start, stride as int, v_off, n_off, uv_off),
                    corners(r@) == before + fan(p@, start, k - 1, stride as int, v_off, n_off, uv_off),
            {
                let c1 = advance(cursor, k, Ghost(start));
                let c2 = advance(c1, 1, Ghost(start + k));
                let b = read_numbered(p, c1, stride, v_off, n_off, uv_off, Ghost(start + k));
                let c = read_numbered(p, c2, stride, v_off, n_off, uv_off, Ghost(start + k + 1));
                let tri = triangle(first, b, c);
                proof {
                    push_corners(r@, tri);
                    assert(before + fan(p@, start, k - 1, stride as int, v_off, n_off, uv_off) + seq![
                        first,
                        b,
                        c,
                    ] =~= before + fan(p@, start, k as int, stride as int, v_off, n_off, uv_off));
                }
                r.push(tri);
            }
        } else {
            assert(before + fan(p@, start, vc - 2, stride as int, v_off, n_off, uv_off) =~= before);
        }
        cursor = advance(cursor, vc, Ghost(start));
    }
    r
}

/// Every triangle of a fan begins at the polygon's first corner.
pub proof fn fan_is_centred(
    p: Seq<usize>,
    start: int,
    m: int,
    stride: int,
    v_off: Option<usize>,
    n_off: Option<usize>,
    uv_off: Option<usize>,
    i: int,
)
    requires
        0 <= i < m,
    ensures
        fan(p, start, m, stride, v_off, n_off, uv_off).len() == 3 * m,
        fan(p, start, m, stride, v_off, n_off, uv_off)[3 * i] == numbered_corner(
            p,
            start,
            stride,
            v_off,
            n_off,
            uv_off,
        ),
    decreases m,
{
    fan_len(p, start, m - 1, stride, v_off, n_off, uv_off);
    if i < m - 1 {
        fan_is_centred(p, start, m - 1, stride, v_off, n_off, uv_off, i);
    }
}

proof fn fan_len(
    p: Seq<usize>,
    start: int,
    m: int,
    stride: int,
    v_off: Option<usize>,
    n_off: Option<usize>,
    uv_off: Option<usize>,
)
    requires
        m >= 0,
    ensures
        fan(p, start, m, stride, v_off, n_off, uv_off).len() == 3 * m,
    decreases m,
{
    if m > 0 {
        fan_len(p, start, m - 1, stride, v_off, n_off, uv_off);
    }
}

} // verus!
