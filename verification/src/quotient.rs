//! What edge collapses keep: a reduced mesh is the original with vertices identified.

use vstd::prelude::*;
use crate::algebra;
use crate::collapse;
use crate::mesh;
use vstd::multiset::Multiset;
use crate::collapse::{EdgeMetric, Surface};
use crate::heap::CollapseCandidate;
use crate::number::{Point3, Real};

verus! {

/// Whether two corners of a triangle have been merged into one vertex.
pub open spec fn pinched(rep: Seq<u32>, t: [u32; 3]) -> bool {
    ||| rep[t[0] as int] == rep[t[1] as int]
    ||| rep[t[1] as int] == rep[t[2] as int]
    ||| rep[t[0] as int] == rep[t[2] as int]
}

/// Whether each live triangle of the state is an original one with every
/// corner replaced by the vertex it was merged into, and the others are pinched.
pub open spec fn quotient<W>(tris: Seq<[u32; 3]>, s: Surface<W>) -> bool {
    &&& s.tris.len() == tris.len()
    &&& s.alive.len() == tris.len()
    &&& forall|i: int, c: int|
        0 <= i < tris.len() && s.alive[i] && 0 <= c < 3 ==> (#[trigger] s.tris[i][c])
            == s.rep[tris[i][c] as int]
    &&& forall|i: int| 0 <= i < tris.len() && !s.alive[i] ==> pinched(s.rep, #[trigger] tris[i])
}

/// Whether merging has led to vertices that were not merged further.
pub open spec fn idempotent(rep: Seq<u32>, n: nat) -> bool {
    &&& rep.len() == n
    &&& forall|v: int| 0 <= v < n ==> (#[trigger] rep[v]) < n && rep[rep[v] as int] == rep[v]
}

/// Whether proposals are about vertices of the mesh.
pub open spec fn queue_within(q: Multiset<CollapseCandidate>, n: nat) -> bool {
    forall|c: CollapseCandidate| #[trigger] q.contains(c) ==> c.v_a < n && c.v_b < n
}

spec fn sound<W>(n: nat, tris: Seq<[u32; 3]>, s: Surface<W>) -> bool {
    &&& s.positions.len() == n
    &&& idempotent(s.rep, n)
    &&& quotient(tris, s)
    &&& queue_within(s.queue, n)
    &&& mesh::corners_within(s.tris, n)
}

proof fn round_is_sound<M: EdgeMetric>(
    m: &M,
    n: nat,
    tris: Seq<[u32; 3]>,
    s: Surface<M::Weight>,
    t: Surface<M::Weight>,
)
    requires
        n <= u32::MAX,
        mesh::corners_within(tris, n),
        sound(n, tris, s),
        collapse::round(m, s, t),
    ensures
        sound(n, tris, t),
        collapse::live_count(t) <= collapse::live_count(s),
        forall|i: int| 0 <= i < tris.len() && t.alive[i] ==> #[trigger] s.alive[i],
{
    let c = choose|c: CollapseCandidate|
        {
            let a = s.rep[c.v_a as int];
            let b = s.rep[c.v_b as int];
            &&& #[trigger] collapse::cheapest(s.queue, c)
            &&& if a == b || c.generation != s.generation[a as int] + s.generation[b as int] {
                t == collapse::with_queue(s, s.queue.remove(c))
            } else {
                collapse::merged(m, s, c, a, b, t)
            }
        };
    let a = s.rep[c.v_a as int];
    let b = s.rep[c.v_b as int];
    assert(s.queue.contains(c));
    assert(s.rep[c.v_a as int] < n && s.rep[c.v_b as int] < n);
    if a == b || c.generation != s.generation[a as int] + s.generation[b as int] {
        assert forall|d: CollapseCandidate| #[trigger] t.queue.contains(d) implies d.v_a < n && d.v_b
            < n by {
            assert(s.queue.contains(d));
        }
    } else {
        assert forall|v: int| 0 <= v < n implies (#[trigger] t.rep[v]) < n && t.rep[t.rep[v] as int]
            == t.rep[v] by {
            assert(s.rep[v] < n);
            assert(t.rep[v] == collapse::moved(s.rep[v], a, b));
            assert(s.rep[a as int] == a && s.rep[b as int] == b);
            assert(t.rep[t.rep[v] as int] == collapse::moved(s.rep[t.rep[v] as int], a, b));
        }
        assert forall|i: int| 0 <= i < tris.len() implies #[trigger] collapse::rewired_one(
            s.tris[i],
            s.alive[i],
            a,
            b,
            t.tris[i],
            t.alive[i],
        ) by {
            assert(t.tris[i] == t.tris[i]);
        }
        assert forall|i: int, k: int| 0 <= i < tris.len() && 0 <= k < 3 implies (
        #[trigger] t.tris[i][k]) < n by {
            assert(collapse::rewired_one(s.tris[i], s.alive[i], a, b, t.tris[i], t.alive[i]));
            assert(s.tris[i][k] < n);
        }
        assert forall|i: int, k: int| 0 <= i < tris.len() && t.alive[i] && 0 <= k < 3 implies (
        #[trigger] t.tris[i][k]) == t.rep[tris[i][k] as int] by {
            assert(collapse::rewired_one(s.tris[i], s.alive[i], a, b, t.tris[i], t.alive[i]));
            assert(s.tris[i][k] == s.rep[tris[i][k] as int]);
            assert(tris[i][k] < n);
        }
        assert forall|i: int| 0 <= i < tris.len() && !t.alive[i] implies pinched(
            t.rep,
            #[trigger] tris[i],
        ) by {
            assert(collapse::rewired_one(s.tris[i], s.alive[i], a, b, t.tris[i], t.alive[i]));
            assert(tris[i][0] < n && tris[i][1] < n && tris[i][2] < n);
            if s.alive[i] {
                assert(s.tris[i][0] == s.rep[tris[i][0] as int]);
                assert(s.tris[i][1] == s.rep[tris[i][1] as int]);
                assert(s.tris[i][2] == s.rep[tris[i][2] as int]);
            } else {
                assert(pinched(s.rep, tris[i]));
            }
        }
        let added = choose|added: Seq<CollapseCandidate>|
            {
                &&& #[trigger] collapse::proposals_around(m, t, a, added)
                &&& t.queue == s.queue.remove(c).add(added.to_multiset())
            };
        let places = choose|places: Seq<(int, int)>| #[trigger] collapse::proposals_at(m, t, a, places, added);
        assert forall|d: CollapseCandidate| #[trigger] t.queue.contains(d) implies d.v_a < n && d.v_b
            < n by {
            broadcast use vstd::seq_lib::group_to_multiset_ensures;

            if s.queue.contains(d) {
            } else {
                assert(added.to_multiset().count(d) > 0);
                let i = choose|i: int| 0 <= i < added.len() && added[i] == d;
                assert(collapse::proposal(m, t, collapse::edge_to(t.tris, a, places[i]), added[i]));
                assert(places.contains(places[i]));
                assert(t.tris[places[i].0][places[i].1] < n);
            }
        }
    }
    assert forall|i: int| 0 <= i < tris.len() && t.alive[i] implies #[trigger] s.alive[i] by {
        if !(t.alive =~= s.alive) {
            assert(collapse::rewired_one(s.tris[i], s.alive[i], a, b, t.tris[i], t.alive[i]));
        }
    }
    fewer_true(s.alive, t.alive, tris.len() as int);
}

proof fn fewer_true(s: Seq<bool>, t: Seq<bool>, n: int)
    requires
        0 <= n <= s.len(),
        n <= t.len(),
        forall|i: int| 0 <= i < n && t[i] ==> #[trigger] s[i],
    ensures
        collapse::count_true(t, n) <= collapse::count_true(s, n),
    decreases n,
{
    if n > 0 {
        fewer_true(s, t, n - 1);
    }
}

/// In every state of a run, the live triangles are the original ones with
/// corners replaced by the vertices they were merged into, every other
/// triangle has two corners merged into one, and the number of live triangles
/// has not grown.
pub proof fn reduction_is_a_quotient<M: EdgeMetric>(
    m: &M,
    vertices: Seq<Point3>,
    weights: Seq<M::Weight>,
    tris: Seq<[u32; 3]>,
    target: int,
    trace: Seq<Surface<M::Weight>>,
    k: int,
)
    requires
        vertices.len() <= u32::MAX,
        mesh::corners_within(tris, vertices.len()),
        collapse::rounds(m, vertices, weights, tris, target, trace),
        0 <= k < trace.len(),
    ensures
        trace[k].positions.len() == vertices.len(),
        idempotent(trace[k].rep, vertices.len()),
        quotient(tris, trace[k]),
        collapse::live_count(trace[k]) <= tris.len(),
{
    run_is_sound(m, vertices, weights, tris, target, trace, k);
    collapse::count_true_bounds(trace[k].alive, trace[k].alive.len() as int);
}

/// The number of live triangles never grows from one state of a run to a later one.
pub proof fn live_count_never_grows<M: EdgeMetric>(
    m: &M,
    vertices: Seq<Point3>,
    weights: Seq<M::Weight>,
    tris: Seq<[u32; 3]>,
    target: int,
    trace: Seq<Surface<M::Weight>>,
    j: int,
    k: int,
)
    requires
        vertices.len() <= u32::MAX,
        mesh::corners_within(tris, vertices.len()),
        collapse::rounds(m, vertices, weights, tris, target, trace),
        0 <= j <= k < trace.len(),
    ensures
        collapse::live_count(trace[k]) <= collapse::live_count(trace[j]),
    decreases k - j,
{
    if j < k {
        live_count_never_grows(m, vertices, weights, tris, target, trace, j, k - 1);
        run_is_sound(m, vertices, weights, tris, target, trace, k - 1);
        assert(collapse::round(m, trace[k - 1], trace[k - 1 + 1]));
        round_is_sound(m, vertices.len(), tris, trace[k - 1], trace[k]);
    }
}

proof fn run_is_sound<M: EdgeMetric>(
    m: &M,
    vertices: Seq<Point3>,
    weights: Seq<M::Weight>,
    tris: Seq<[u32; 3]>,
    target: int,
    trace: Seq<Surface<M::Weight>>,
    k: int,
)
    requires
        vertices.len() <= u32::MAX,
        mesh::corners_within(tris, vertices.len()),
        collapse::rounds(m, vertices, weights, tris, target, trace),
        0 <= k < trace.len(),
    ensures
        sound(vertices.len(), tris, trace[k]),
    decreases k,
{
    let n = vertices.len();
    if k == 0 {
        let s = trace[0];
        let (edges, made) = choose|edges: Seq<(u32, u32)>, made: Seq<CollapseCandidate>|
            #[trigger] collapse::proposed(m, s, edges, made) && s.queue == made.to_multiset();
        assert forall|d: CollapseCandidate| #[trigger] s.queue.contains(d) implies d.v_a < n && d.v_b
            < n by {
            broadcast use vstd::seq_lib::group_to_multiset_ensures;

            assert(made.to_multiset().count(d) > 0);
            let i = choose|i: int| 0 <= i < made.len() && made[i] == d;
            assert(collapse::proposal(m, s, edges[i], made[i]));
            assert(edges.contains(edges[i]));
            let t = choose|t: int| 0 <= t < tris.len() && collapse::edge_of(#[trigger] tris[t], edges[i]);
            assert(tris[t][0] < n && tris[t][1] < n && tris[t][2] < n);
        }
    } else {
        run_is_sound(m, vertices, weights, tris, target, trace, k - 1);
        assert(collapse::round(m, trace[k - 1], trace[k - 1 + 1]));
        round_is_sound(m, n, tris, trace[k - 1], trace[k]);
    }
}

/// Whether a proposal in the queue is about the edge from `x` to `y` as it is now.
pub open spec fn current<W>(s: Surface<W>, c: CollapseCandidate, x: u32, y: u32) -> bool {
    let a = s.rep[c.v_a as int];
    let b = s.rep[c.v_b as int];
    &&& s.queue.contains(c)
    &&& (a == x && b == y) || (a == y && b == x)
    &&& c.generation == s.generation[x as int] + s.generation[y as int]
}

/// Whether a triangle is alive and has three corners.
pub open spec fn stands<W>(s: Surface<W>, i: int) -> bool {
    0 <= i < s.tris.len() && s.alive[i] && !mesh::degenerate(s.tris[i])
}

/// Whether some proposal is about each edge of each live triangle as it is now.
spec fn lively<W>(s: Surface<W>) -> bool {
    forall|i: int, p: int, q: int|
        #![trigger s.tris[i][p], s.tris[i][q]]
        stands(s, i) && 0 <= p < q < 3 ==> exists|c: CollapseCandidate| current(s, c, s.tris[i][p], s.tris[i][q])
}

proof fn round_is_lively<M: EdgeMetric>(
    m: &M,
    n: nat,
    tris: Seq<[u32; 3]>,
    s: Surface<M::Weight>,
    t: Surface<M::Weight>,
)
    requires
        n <= u32::MAX,
        mesh::corners_within(tris, n),
        sound(n, tris, s),
        sound(n, tris, t),
        s.generation.len() == n,
        lively(s),
        collapse::round(m, s, t),
    ensures
        t.generation.len() == n,
        lively(t),
{
    let c = choose|c: CollapseCandidate|
        {
            let a = s.rep[c.v_a as int];
            let b = s.rep[c.v_b as int];
            &&& #[trigger] collapse::cheapest(s.queue, c)
            &&& if a == b || c.generation != s.generation[a as int] + s.generation[b as int] {
                t == collapse::with_queue(s, s.queue.remove(c))
            } else {
                collapse::merged(m, s, c, a, b, t)
            }
        };
    let a = s.rep[c.v_a as int];
    let b = s.rep[c.v_b as int];
    assert(s.queue.contains(c));
    assert(s.rep[c.v_a as int] < n && s.rep[c.v_b as int] < n);
    if a == b || c.generation != s.generation[a as int] + s.generation[b as int] {
        assert forall|i: int, p: int, q: int|
            #![trigger t.tris[i][p], t.tris[i][q]]
            stands(t, i) && 0 <= p < q < 3 implies exists|d: CollapseCandidate|
            current(t, d, t.tris[i][p], t.tris[i][q]) by {
            assert(stands(s, i));
            let (x, y) = (s.tris[i][p], s.tris[i][q]);
            let d = choose|d: CollapseCandidate| current(s, d, x, y);
            assert(x != y);
            assert(d != c);
            assert(current(t, d, x, y));
        }
    } else {
        let added = choose|added: Seq<CollapseCandidate>|
            {
                &&& #[trigger] collapse::proposals_around(m, t, a, added)
                &&& t.queue == s.queue.remove(c).add(added.to_multiset())
            };
        let places = choose|places: Seq<(int, int)>| #[trigger] collapse::proposals_at(m, t, a, places, added);
        assert forall|i: int, p: int, q: int|
            #![trigger t.tris[i][p], t.tris[i][q]]
            stands(t, i) && 0 <= p < q < 3 implies exists|d: CollapseCandidate|
            current(t, d, t.tris[i][p], t.tris[i][q]) by {
            assert(collapse::rewired_one(s.tris[i], s.alive[i], a, b, t.tris[i], t.alive[i])) by {
                assert(t.tris[i] == t.tris[i]);
            }
            assert(stands(s, i));
            let (x, y) = (t.tris[i][p], t.tris[i][q]);
            assert(x != y);
            if x == a || y == a {
                let z: int = if x == a {
                    q
                } else {
                    p
                };
                edge_is_added(m, n, tris, s, c, a, t, added, places, i, z);
            } else {
                assert(s.tris[i][p] == x && s.tris[i][q] == y);
                assert(x != b && y != b);
                let d = choose|d: CollapseCandidate| current(s, d, s.tris[i][p], s.tris[i][q]);
                assert(d.v_a < n && d.v_b < n);
                assert(d != c);
                assert(t.rep[d.v_a as int] == s.rep[d.v_a as int]);
                assert(t.rep[d.v_b as int] == s.rep[d.v_b as int]);
                assert(t.queue.count(d) > 0);
                assert(current(t, d, x, y));
            }
        }
    }
}

proof fn edge_is_added<M: EdgeMetric>(
    m: &M,
    n: nat,
    tris: Seq<[u32; 3]>,
    s: Surface<M::Weight>,
    c: CollapseCandidate,
    a: u32,
    t: Surface<M::Weight>,
    added: Seq<CollapseCandidate>,
    places: Seq<(int, int)>,
    i: int,
    z: int,
)
    requires
        mesh::corners_within(tris, n),
        sound(n, tris, t),
        collapse::proposals_at(m, t, a, places, added),
        t.queue == s.queue.remove(c).add(added.to_multiset()),
        stands(t, i),
        0 <= z < 3,
        collapse::has_corner(t.tris[i], a),
        t.tris[i][z] != a,
    ensures
        exists|d: CollapseCandidate| current(t, d, a, t.tris[i][z]),
        exists|d: CollapseCandidate| current(t, d, t.tris[i][z], a),
{
    broadcast use vstd::seq_lib::group_to_multiset_ensures;

    let y = t.tris[i][z];
    assert(collapse::around(t.tris, t.alive, a, (i, z)));
    assert(places.contains((i, z)));
    let j = choose|j: int| 0 <= j < places.len() && places[j] == (i, z);
    let d = added[j];
    assert(collapse::proposal(m, t, collapse::edge_to(t.tris, a, places[j]), added[j]));
    assert(tris[i][0] < n && tris[i][1] < n && tris[i][2] < n);
    assert(t.tris[i][0] == t.rep[tris[i][0] as int]);
    assert(t.tris[i][1] == t.rep[tris[i][1] as int]);
    assert(t.tris[i][2] == t.rep[tris[i][2] as int]);
    assert(t.tris[i][z] == t.rep[tris[i][z] as int]);
    assert(tris[i][z] < n);
    assert(t.rep[y as int] == y);
    assert(t.rep[a as int] == a);
    assert(added.contains(d));
    assert(added.to_multiset().count(d) > 0);
    assert(t.queue.count(d) > 0);
    assert(current(t, d, a, y));
    assert(current(t, d, y, a));
}

proof fn run_is_lively<M: EdgeMetric>(
    m: &M,
    vertices: Seq<Point3>,
    weights: Seq<M::Weight>,
    tris: Seq<[u32; 3]>,
    target: int,
    trace: Seq<Surface<M::Weight>>,
    k: int,
)
    requires
        vertices.len() <= u32::MAX,
        mesh::corners_within(tris, vertices.len()),
        collapse::rounds(m, vertices, weights, tris, target, trace),
        0 <= k < trace.len(),
    ensures
        trace[k].generation.len() == vertices.len(),
        lively(trace[k]),
    decreases k,
{
    let n = vertices.len();
    if k == 0 {
        let s = trace[0];
        let (edges, made) = choose|edges: Seq<(u32, u32)>, made: Seq<CollapseCandidate>|
            #[trigger] collapse::proposed(m, s, edges, made) && s.queue == made.to_multiset();
        assert forall|i: int, p: int, q: int|
            #![trigger s.tris[i][p], s.tris[i][q]]
            stands(s, i) && 0 <= p < q < 3 implies exists|d: CollapseCandidate|
            current(s, d, s.tris[i][p], s.tris[i][q]) by {
            broadcast use vstd::seq_lib::group_to_multiset_ensures;

            let e = collapse::edge_key_spec(s.tris[i][p], s.tris[i][q]);
            assert(collapse::edge_of(s.tris[i], e));
            assert(collapse::is_edge(s.tris, s.tris.len() as int, e));
            assert(edges.contains(e));
            let j = choose|j: int| 0 <= j < edges.len() && edges[j] == e;
            let d = made[j];
            assert(collapse::proposal(m, s, edges[j], made[j]));
            assert(made.contains(d));
            assert(tris[i][p] < n && tris[i][q] < n);
            assert(s.queue.count(d) > 0);
            assert(current(s, d, s.tris[i][p], s.tris[i][q]));
        }
    } else {
        run_is_lively(m, vertices, weights, tris, target, trace, k - 1);
        run_is_sound(m, vertices, weights, tris, target, trace, k - 1);
        run_is_sound(m, vertices, weights, tris, target, trace, k);
        assert(collapse::round(m, trace[k - 1], trace[k - 1 + 1]));
        round_is_lively(m, n, tris, trace[k - 1], trace[k]);
    }
}

/// A run ends with no more live triangles than wanted, or with none that has three corners.
pub proof fn reduction_meets_target<M: EdgeMetric>(
    m: &M,
    vertices: Seq<Point3>,
    weights: Seq<M::Weight>,
    tris: Seq<[u32; 3]>,
    target: int,
    trace: Seq<Surface<M::Weight>>,
)
    requires
        vertices.len() <= u32::MAX,
        mesh::corners_within(tris, vertices.len()),
        collapse::reduction(m, vertices, weights, tris, target, trace),
    ensures
        collapse::live_count(trace.last()) <= target || forall|i: int| !#[trigger] stands(trace.last(), i),
        mesh::corners_within(trace.last().tris, trace.last().positions.len()),
        trace.last().alive.len() == trace.last().tris.len(),
{
    let k = trace.len() - 1;
    let s = trace.last();
    run_is_sound(m, vertices, weights, tris, target, trace, k);
    run_is_lively(m, vertices, weights, tris, target, trace, k);
    assert(s == trace[k]);
    if collapse::live_count(s) > target {
        assert forall|i: int| !#[trigger] stands(s, i) by {
            if stands(s, i) {
                let (x, y) = (s.tris[i][0], s.tris[i][1]);
                let c = choose|c: CollapseCandidate| current(s, c, s.tris[i][0], s.tris[i][1]);
                assert(s.queue.contains(c));
            }
        }
    }
}

// ── Which collapse comes first ──

/// Whether a proposal in the queue is about the edge from `x` to `y`, with the ends as they are.
pub open spec fn fresh<M: EdgeMetric>(m: &M, s: Surface<M::Weight>, x: u32, y: u32) -> bool {
    exists|d: CollapseCandidate| #[trigger]
        collapse::proposal(m, s, collapse::edge_key_spec(x, y), d) && s.queue.contains(d)
}

/// Whether that holds of each edge of each live triangle.
spec fn all_fresh<M: EdgeMetric>(m: &M, s: Surface<M::Weight>) -> bool {
    forall|i: int, p: int, q: int|
        #![trigger s.tris[i][p], s.tris[i][q]]
        stands(s, i) && 0 <= p < q < 3 ==> fresh(m, s, s.tris[i][p], s.tris[i][q])
}

/// Whether `c` was proposed in one of the first states, up to the `i`-th.
pub open spec fn proposed_by<M: EdgeMetric>(m: &M, trace: Seq<Surface<M::Weight>>, i: int, c: CollapseCandidate) -> bool {
    exists|j: int| 0 <= j <= i && #[trigger] collapse::proposal(m, trace[j], (c.v_a, c.v_b), c)
}

/// The proposal that a round takes.
spec fn takes<M: EdgeMetric>(m: &M, s: Surface<M::Weight>, t: Surface<M::Weight>, c: CollapseCandidate) -> bool {
    let a = s.rep[c.v_a as int];
    let b = s.rep[c.v_b as int];
    &&& collapse::cheapest(s.queue, c)
    &&& if a == b || c.generation != s.generation[a as int] + s.generation[b as int] {
        t == collapse::with_queue(s, s.queue.remove(c))
    } else {
        collapse::merged(m, s, c, a, b, t)
    }
}

proof fn round_stays_fresh<M: EdgeMetric>(
    m: &M,
    n: nat,
    tris: Seq<[u32; 3]>,
    s: Surface<M::Weight>,
    t: Surface<M::Weight>,
    c: CollapseCandidate,
)
    requires
        n <= u32::MAX,
        mesh::corners_within(tris, n),
        sound(n, tris, s),
        sound(n, tris, t),
        s.generation.len() == n,
        s.weights.len() == n,
        all_fresh(m, s),
        takes(m, s, t, c),
    ensures
        t.weights.len() == n,
        all_fresh(m, t),
{
    let a = s.rep[c.v_a as int];
    let b = s.rep[c.v_b as int];
    assert(s.queue.contains(c));
    assert(s.rep[c.v_a as int] < n && s.rep[c.v_b as int] < n);
    assert forall|i: int, p: int, q: int|
        #![trigger t.tris[i][p], t.tris[i][q]]
        stands(t, i) && 0 <= p < q < 3 implies fresh(m, t, t.tris[i][p], t.tris[i][q]) by {
        let (x, y) = (t.tris[i][p], t.tris[i][q]);
        let e = collapse::edge_key_spec(x, y);
        assert(x != y);
        assert(tris[i][p] < n && tris[i][q] < n);
        if a == b || c.generation != s.generation[a as int] + s.generation[b as int] {
            assert(stands(s, i));
            assert(fresh(m, s, s.tris[i][p], s.tris[i][q]));
            let d = choose|d: CollapseCandidate| #[trigger] collapse::proposal(m, s, e, d) && s.queue.contains(d);
            assert(s.rep[s.rep[tris[i][p] as int] as int] == x);
            assert(s.rep[s.rep[tris[i][q] as int] as int] == y);
            assert(d != c);
            assert(t.queue.count(d) > 0);
            assert(collapse::proposal(m, t, e, d));
        } else {
            let added = choose|added: Seq<CollapseCandidate>|
                {
                    &&& #[trigger] collapse::proposals_around(m, t, a, added)
                    &&& t.queue == s.queue.remove(c).add(added.to_multiset())
                };
            let places = choose|places: Seq<(int, int)>| #[trigger] collapse::proposals_at(m, t, a, places, added);
            assert(collapse::rewired_one(s.tris[i], s.alive[i], a, b, t.tris[i], t.alive[i])) by {
                assert(t.tris[i] == t.tris[i]);
            }
            assert(stands(s, i));
            if x == a || y == a {
                broadcast use vstd::seq_lib::group_to_multiset_ensures;

                let z: int = if x == a {
                    q
                } else {
                    p
                };
                assert(collapse::around(t.tris, t.alive, a, (i, z)));
                assert(places.contains((i, z)));
                let j = choose|j: int| 0 <= j < places.len() && places[j] == (i, z);
                let d = added[j];
                assert(collapse::proposal(m, t, collapse::edge_to(t.tris, a, places[j]), added[j]));
                assert(collapse::edge_to(t.tris, a, places[j]) == e);
                assert(added.contains(d));
                assert(added.to_multiset().count(d) > 0);
                assert(t.queue.count(d) > 0);
            } else {
                assert(s.tris[i][p] == x && s.tris[i][q] == y);
                assert(fresh(m, s, s.tris[i][p], s.tris[i][q]));
                let d = choose|d: CollapseCandidate| #[trigger]
                    collapse::proposal(m, s, e, d) && s.queue.contains(d);
                assert(x == s.rep[tris[i][p] as int] && y == s.rep[tris[i][q] as int]);
                assert(s.rep[x as int] == x && s.rep[y as int] == y);
                assert(x != b && y != b) by {
                    assert(t.tris[i][p] == collapse::moved(s.tris[i][p], a, b) || !collapse::has_corner(s.tris[i], b));
                }
                assert(d != c);
                assert(t.queue.count(d) > 0);
                assert(collapse::proposal(m, t, e, d));
            }
        }
    }
}

proof fn run_stays_fresh<M: EdgeMetric>(
    m: &M,
    vertices: Seq<Point3>,
    weights: Seq<M::Weight>,
    tris: Seq<[u32; 3]>,
    target: int,
    trace: Seq<Surface<M::Weight>>,
    k: int,
)
    requires
        vertices.len() <= u32::MAX,
        weights.len() == vertices.len(),
        mesh::corners_within(tris, vertices.len()),
        collapse::rounds(m, vertices, weights, tris, target, trace),
        0 <= k < trace.len(),
    ensures
        trace[k].weights.len() == vertices.len(),
        all_fresh(m, trace[k]),
        forall|c: CollapseCandidate| #[trigger] trace[k].queue.contains(c) ==> proposed_by(m, trace, k, c),
    decreases k,
{
    broadcast use vstd::seq_lib::group_to_multiset_ensures;

    let n = vertices.len();
    if k == 0 {
        let s = trace[0];
        let (edges, made) = choose|edges: Seq<(u32, u32)>, made: Seq<CollapseCandidate>|
            #[trigger] collapse::proposed(m, s, edges, made) && s.queue == made.to_multiset();
        assert forall|i: int, p: int, q: int|
            #![trigger s.tris[i][p], s.tris[i][q]]
            stands(s, i) && 0 <= p < q < 3 implies fresh(m, s, s.tris[i][p], s.tris[i][q]) by {
            let e = collapse::edge_key_spec(s.tris[i][p], s.tris[i][q]);
            assert(collapse::edge_of(s.tris[i], e));
            assert(collapse::is_edge(s.tris, s.tris.len() as int, e));
            assert(edges.contains(e));
            let j = choose|j: int| 0 <= j < edges.len() && edges[j] == e;
            assert(collapse::proposal(m, s, edges[j], made[j]));
            assert(made.contains(made[j]));
            assert(s.queue.count(made[j]) > 0);
        }
        assert forall|c: CollapseCandidate| #[trigger] s.queue.contains(c) implies proposed_by(m, trace, 0, c) by {
            assert(made.to_multiset().count(c) > 0);
            let j = choose|j: int| 0 <= j < made.len() && made[j] == c;
            assert(collapse::proposal(m, s, edges[j], made[j]));
            assert(collapse::proposal(m, trace[0], (c.v_a, c.v_b), c));
        }
    } else {
        run_stays_fresh(m, vertices, weights, tris, target, trace, k - 1);
        run_is_lively(m, vertices, weights, tris, target, trace, k - 1);
        run_is_sound(m, vertices, weights, tris, target, trace, k - 1);
        run_is_sound(m, vertices, weights, tris, target, trace, k);
        assert(collapse::round(m, trace[k - 1], trace[k - 1 + 1]));
        let (s, t) = (trace[k - 1], trace[k]);
        let c = taken(m, s, t);
        round_stays_fresh(m, n, tris, s, t, c);
        assert forall|d: CollapseCandidate| #[trigger] t.queue.contains(d) implies proposed_by(m, trace, k, d) by {
            if s.queue.contains(d) {
                let j = choose|j: int| 0 <= j <= k - 1 && #[trigger] collapse::proposal(m, trace[j], (d.v_a, d.v_b), d);
                assert(collapse::proposal(m, trace[j], (d.v_a, d.v_b), d));
            } else {
                let a = s.rep[c.v_a as int];
                let added = choose|added: Seq<CollapseCandidate>|
                    {
                        &&& #[trigger] collapse::proposals_around(m, t, a, added)
                        &&& t.queue == s.queue.remove(c).add(added.to_multiset())
                    };
                let places = choose|places: Seq<(int, int)>|
                    #[trigger] collapse::proposals_at(m, t, a, places, added);
                assert(added.to_multiset().count(d) > 0);
                let j = choose|j: int| 0 <= j < added.len() && added[j] == d;
                assert(collapse::proposal(m, t, collapse::edge_to(t.tris, a, places[j]), added[j]));
                assert(collapse::proposal(m, trace[k], (d.v_a, d.v_b), d));
            }
        }
    }
}

proof fn taken<M: EdgeMetric>(m: &M, s: Surface<M::Weight>, t: Surface<M::Weight>) -> (c: CollapseCandidate)
    requires
        collapse::round(m, s, t),
    ensures
        takes(m, s, t, c),
{
    choose|c: CollapseCandidate|
        {
            let a = s.rep[c.v_a as int];
            let b = s.rep[c.v_b as int];
            &&& #[trigger] collapse::cheapest(s.queue, c)
            &&& if a == b || c.generation != s.generation[a as int] + s.generation[b as int] {
                t == collapse::with_queue(s, s.queue.remove(c))
            } else {
                collapse::merged(m, s, c, a, b, t)
            }
        }
}

/// Whether the surface is the same: triangles, positions and what was merged.
pub open spec fn same_surface<W>(s: Surface<W>, t: Surface<W>) -> bool {
    &&& t.positions == s.positions
    &&& t.tris == s.tris
    &&& t.alive == s.alive
    &&& t.rep == s.rep
}

/// Whether every edge of every live triangle can be collapsed at no less than a cost.
pub open spec fn no_edge_costs_less<M: EdgeMetric>(m: &M, s: Surface<M::Weight>, cost: Real) -> bool {
    forall|i: int, p: int, q: int|
        #![trigger s.tris[i][p], s.tris[i][q]]
        stands(s, i) && 0 <= p < q < 3 ==> exists|d: CollapseCandidate| #[trigger]
            collapse::proposal(m, s, collapse::edge_key_spec(s.tris[i][p], s.tris[i][q]), d) && !d.cost.below(cost)
}

/// Every round that changes the surface merges two vertices, at a cost that was proposed for its edge and
/// that no edge of a live triangle undercuts: each of them has been rated, with its ends as they are.
pub proof fn rounds_take_the_cheapest_edge<M: EdgeMetric>(
    m: &M,
    vertices: Seq<Point3>,
    weights: Seq<M::Weight>,
    tris: Seq<[u32; 3]>,
    target: int,
    trace: Seq<Surface<M::Weight>>,
    i: int,
)
    requires
        vertices.len() <= u32::MAX,
        weights.len() == vertices.len(),
        mesh::corners_within(tris, vertices.len()),
        collapse::rounds(m, vertices, weights, tris, target, trace),
        0 <= i < trace.len() - 1,
    ensures
        same_surface(trace[i], trace[i + 1]) || exists|c: CollapseCandidate|
            {
                let s = trace[i];
                let t = trace[i + 1];
                let a = s.rep[c.v_a as int];
                let b = s.rep[c.v_b as int];
                &&& #[trigger] proposed_by(m, trace, i, c)
                &&& a != b
                &&& call_ensures(M::place, (m, s.positions[a as int], s.positions[b as int], c.target), t.positions[a as int])
                &&& t.rep == s.rep.map_values(|x: u32| collapse::moved(x, a, b))
                &&& no_edge_costs_less(m, s, c.cost)
            },
{
    let (s, t) = (trace[i], trace[i + 1]);
    run_stays_fresh(m, vertices, weights, tris, target, trace, i);
    assert(collapse::round(m, trace[i], trace[i + 1]));
    let c = taken(m, s, t);
    let a = s.rep[c.v_a as int];
    let b = s.rep[c.v_b as int];
    assert(s.queue.contains(c));
    assert forall|j: int, p: int, q: int|
        #![trigger s.tris[j][p], s.tris[j][q]]
        stands(s, j) && 0 <= p < q < 3 implies exists|d: CollapseCandidate| #[trigger]
        collapse::proposal(m, s, collapse::edge_key_spec(s.tris[j][p], s.tris[j][q]), d) && !d.cost.below(c.cost) by {
        assert(fresh(m, s, s.tris[j][p], s.tris[j][q]));
        let d = choose|d: CollapseCandidate| #[trigger]
            collapse::proposal(m, s, collapse::edge_key_spec(s.tris[j][p], s.tris[j][q]), d) && s.queue.contains(d);
        assert(c.cost.rank() <= d.cost.rank());
    }
    assert(proposed_by(m, trace, i, c));
}

// ── What merged vertices weigh ──

/// Whether merged weights are worth what their parts are.
pub open spec fn adds_up<M: EdgeMetric>(m: &M, worth: spec_fn(M::Weight) -> real) -> bool {
    forall|a: M::Weight, b: M::Weight, r: M::Weight| #[trigger]
        call_ensures(M::combine, (m, a, b), r) ==> worth(r) == worth(a) + worth(b)
}

/// What the vertices are worth that have been merged into `r`.
pub open spec fn gathered_worth<W>(worth: spec_fn(W) -> real, weights: Seq<W>, rep: Seq<u32>, r: int) -> spec_fn(int) -> real {
    |v: int|
        if rep[v] == r {
            worth(weights[v])
        } else {
            0real
        }
}

/// In every state a vertex is worth what all the vertices are that have been merged into it.
pub proof fn weights_add_up<M: EdgeMetric>(
    m: &M,
    worth: spec_fn(M::Weight) -> real,
    vertices: Seq<Point3>,
    weights: Seq<M::Weight>,
    tris: Seq<[u32; 3]>,
    target: int,
    trace: Seq<Surface<M::Weight>>,
    k: int,
    r: int,
)
    requires
        adds_up(m, worth),
        vertices.len() <= u32::MAX,
        weights.len() == vertices.len(),
        mesh::corners_within(tris, vertices.len()),
        collapse::rounds(m, vertices, weights, tris, target, trace),
        0 <= k < trace.len(),
        0 <= r < vertices.len(),
        trace[k].rep[r] == r,
    ensures
        worth(trace[k].weights[r]) == algebra::total(
            vertices.len() as int,
            gathered_worth(worth, weights, trace[k].rep, r),
        ),
    decreases k,
{
    let n = vertices.len() as int;
    let after = gathered_worth(worth, weights, trace[k].rep, r);
    if k == 0 {
        assert forall|v: int| 0 <= v < n && v != r implies #[trigger] after(v) == 0real by {}
        algebra::total_single(n, r, after);
    } else {
        let (s, t) = (trace[k - 1], trace[k]);
        run_is_sound(m, vertices, weights, tris, target, trace, k - 1);
        run_stays_fresh(m, vertices, weights, tris, target, trace, k - 1);
        assert(collapse::round(m, trace[k - 1], trace[k - 1 + 1]));
        let c = taken(m, s, t);
        let a = s.rep[c.v_a as int];
        let b = s.rep[c.v_b as int];
        assert(s.queue.contains(c));
        if a == b || c.generation != s.generation[a as int] + s.generation[b as int] {
            weights_add_up(m, worth, vertices, weights, tris, target, trace, k - 1, r);
        } else {
            assert(s.rep[c.v_a as int] < n && s.rep[c.v_b as int] < n);
            let before = gathered_worth(worth, weights, s.rep, r);
            assert(r != b) by {
                assert(t.rep[r] == collapse::moved(s.rep[r], a, b));
            }
            assert(s.rep[r] == r) by {
                assert(t.rep[r] == collapse::moved(s.rep[r], a, b));
                assert(s.rep[a as int] == a);
            }
            weights_add_up(m, worth, vertices, weights, tris, target, trace, k - 1, r);
            if r == a {
                let other = gathered_worth(worth, weights, s.rep, b as int);
                weights_add_up(m, worth, vertices, weights, tris, target, trace, k - 1, b as int);
                assert forall|v: int| 0 <= v < n implies #[trigger] after(v) == before(v) + other(v) by {
                    assert(t.rep[v] == collapse::moved(s.rep[v], a, b));
                }
                algebra::total_plus(n, before, other, after);
            } else {
                assert forall|v: int| 0 <= v < n implies #[trigger] after(v) == before(v) by {
                    assert(t.rep[v] == collapse::moved(s.rep[v], a, b));
                }
                algebra::total_same(n, after, before);
            }
        }
    }
}

} // verus!
