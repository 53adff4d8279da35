//! Mesh reduction by merging the ends of edges, cheapest edge first.

use vstd::prelude::*;
use crate::mesh;
use vstd::multiset::Multiset;
use crate::heap::{CollapseCandidate, CollapseQueue};
use crate::mesh::copy_list;
use crate::number::{Point3, Real};

verus! {

broadcast use vstd::std_specs::hash::group_hash_axioms;

/// How an edge-collapse method rates and performs collapses.
pub trait EdgeMetric {
    /// What the method keeps for each vertex besides its position.
    type Weight: Copy;

    /// Cost of merging the ends of an edge, and where the merged vertex would go.
    fn propose(&self, pa: Point3, pb: Point3, wa: Self::Weight, wb: Self::Weight) -> (Real, Point3);

    /// Position of the vertex merged from two vertices, given the proposed position.
    fn place(&self, pa: Point3, pb: Point3, target: Point3) -> Point3;

    /// Weight of the vertex merged from two vertices.
    fn combine(&self, wa: Self::Weight, wb: Self::Weight) -> Self::Weight;
}

/// State of a reduction.
#[verifier::ext_equal]
pub struct Surface<W> {
    pub positions: Seq<Point3>,
    pub weights: Seq<W>,
    pub tris: Seq<[u32; 3]>,
    /// Which triangles have not collapsed.
    pub alive: Seq<bool>,
    /// The vertex that each vertex has been merged into.
    pub rep: Seq<u32>,
    /// How often each vertex took part in a collapse.
    pub generation: Seq<u32>,
    /// Collapses that have been proposed.
    pub queue: Multiset<CollapseCandidate>,
}

/// The ends of an edge, smaller index first.
pub open spec fn edge_key_spec(a: u32, b: u32) -> (u32, u32) {
    if a < b {
        (a, b)
    } else {
        (b, a)
    }
}

/// Orders the ends of an edge.
pub fn edge_key(a: u32, b: u32) -> (r: (u32, u32))
    ensures
        r == edge_key_spec(a, b),
{
    if a < b {
        (a, b)
    } else {
        (b, a)
    }
}

/// Number of `true` entries among the first `n`.
pub open spec fn count_true(s: Seq<bool>, n: int) -> nat
    decreases n,
{
    if n <= 0 {
        0
    } else {
        count_true(s, n - 1) + if s[n - 1] {
            1nat
        } else {
            0nat
        }
    }
}

pub proof fn count_true_bounds(s: Seq<bool>, n: int)
    requires
        0 <= n <= s.len(),
    ensures
        count_true(s, n) <= n,
        forall|i: int| 0 <= i < n && s[i] ==> count_true(s, i) < count_true(s, n),
    decreases n,
{
    if n > 0 {
        count_true_bounds(s, n - 1);
    }
}

pub proof fn count_true_clear(s: Seq<bool>, i: int, n: int)
    requires
        0 <= i < s.len(),
        0 <= n <= s.len(),
        s[i],
    ensures
        count_true(s.update(i, false), n) == count_true(s, n) - if i < n {
            1int
        } else {
            0int
        },
    decreases n,
{
    if n > 0 {
        count_true_clear(s, i, n - 1);
    }
}

/// Whether `v` is a corner of the triangle.
pub open spec fn has_corner(t: [u32; 3], v: u32) -> bool {
    t[0] == v || t[1] == v || t[2] == v
}

/// The corner `x` after `b` was merged into `a`.
pub open spec fn moved(x: u32, a: u32, b: u32) -> u32 {
    if x == b {
        a
    } else {
        x
    }
}

/// Whether `c` proposes to collapse the edge `e` in the given state.
pub open spec fn proposal<M: EdgeMetric>(
    m: &M,
    s: Surface<M::Weight>,
    e: (u32, u32),
    c: CollapseCandidate,
) -> bool {
    &&& c.v_a == e.0
    &&& c.v_b == e.1
    &&& c.generation == s.generation[e.0 as int] + s.generation[e.1 as int]
    &&& call_ensures(
        M::propose,
        (
            m,
            s.positions[e.0 as int],
            s.positions[e.1 as int],
            s.weights[e.0 as int],
            s.weights[e.1 as int],
        ),
        (c.cost, c.target),
    )
}

/// The edge from `a` to the corner given by triangle and place.
pub open spec fn edge_to(s: Seq<[u32; 3]>, a: u32, x: (int, int)) -> (u32, u32) {
    edge_key_spec(a, s[x.0][x.1])
}

/// Whether `x` is a place in a live triangle at `a` that holds another vertex.
pub open spec fn around(tris: Seq<[u32; 3]>, alive: Seq<bool>, a: u32, x: (int, int)) -> bool {
    &&& 0 <= x.0 < tris.len()
    &&& 0 <= x.1 < 3
    &&& alive[x.0]
    &&& has_corner(tris[x.0], a)
    &&& tris[x.0][x.1] != a
}

/// Whether `added` proposes, for every place around `a`, to collapse the edge from `a` to it.
pub open spec fn proposals_around<M: EdgeMetric>(
    m: &M,
    s: Surface<M::Weight>,
    a: u32,
    added: Seq<CollapseCandidate>,
) -> bool {
    exists|places: Seq<(int, int)>| #[trigger] proposals_at(m, s, a, places, added)
}

pub open spec fn proposals_at<M: EdgeMetric>(
    m: &M,
    s: Surface<M::Weight>,
    a: u32,
    places: Seq<(int, int)>,
    added: Seq<CollapseCandidate>,
) -> bool {
    &&& places.no_duplicates()
    &&& forall|x: (int, int)| #[trigger] places.contains(x) <==> around(s.tris, s.alive, a, x)
    &&& places.len() == added.len()
    &&& forall|i: int|
        0 <= i < added.len() ==> proposal(m, s, edge_to(s.tris, a, places[i]), #[trigger] added[i])
}

/// Whether `c` is proposed and no proposal is cheaper.
pub open spec fn cheapest(q: Multiset<CollapseCandidate>, c: CollapseCandidate) -> bool {
    &&& q.contains(c)
    &&& forall|d: CollapseCandidate| q.contains(d) ==> c.cost.rank() <= (#[trigger] d.cost.rank())
}

/// The state with another queue.
pub open spec fn with_queue<W>(s: Surface<W>, q: Multiset<CollapseCandidate>) -> Surface<W> {
    Surface { queue: q, ..s }
}

/// Whether `t` comes from `s` by merging `b` into `a` as `c` proposes.
pub open spec fn merged<M: EdgeMetric>(
    m: &M,
    s: Surface<M::Weight>,
    c: CollapseCandidate,
    a: u32,
    b: u32,
    t: Surface<M::Weight>,
) -> bool {
    &&& t.positions.len() == s.positions.len()
    &&& call_ensures(
        M::place,
        (m, s.positions[a as int], s.positions[b as int], c.target),
        t.positions[a as int],
    )
    &&& t.positions == s.positions.update(a as int, t.positions[a as int])
    &&& t.weights.len() == s.weights.len()
    &&& call_ensures(
        M::combine,
        (m, s.weights[a as int], s.weights[b as int]),
        t.weights[a as int],
    )
    &&& t.weights == s.weights.update(a as int, t.weights[a as int])
    &&& t.rep == s.rep.map_values(|x: u32| moved(x, a, b))
    &&& t.generation == s.generation.update(
        a as int,
        (s.generation[a as int] + 1) as u32,
    ).update(b as int, (s.generation[b as int] + 1) as u32)
    &&& rewired(s.tris, s.alive, a, b, t.tris, t.alive)
    &&& exists|added: Seq<CollapseCandidate>|
        {
            &&& #[trigger] proposals_around(m, t, a, added)
            &&& t.queue == s.queue.remove(c).add(added.to_multiset())
        }
}

/// Whether the live triangles have `a` in place of `b`, and those that became
/// degenerate thereby are no longer alive.
pub open spec fn rewired(
    tris: Seq<[u32; 3]>,
    alive: Seq<bool>,
    a: u32,
    b: u32,
    tris2: Seq<[u32; 3]>,
    alive2: Seq<bool>,
) -> bool {
    &&& tris2.len() == tris.len()
    &&& alive2.len() == alive.len()
    &&& forall|i: int|
        #![trigger tris2[i]]
        #![trigger alive2[i]]
        0 <= i < tris.len() ==> rewired_one(tris[i], alive[i], a, b, tris2[i], alive2[i])
}

/// Whether the listed triangles are rewired and the others are as they were.
spec fn rewired_in(
    list: Seq<usize>,
    tris: Seq<[u32; 3]>,
    alive: Seq<bool>,
    a: u32,
    b: u32,
    tris2: Seq<[u32; 3]>,
    alive2: Seq<bool>,
) -> bool {
    forall|i: int|
        0 <= i < tris.len() ==> if list.contains(i as usize) {
            rewired_one(tris[i], alive[i], a, b, #[trigger] tris2[i], alive2[i])
        } else {
            tris2[i] == tris[i] && alive2[i] == alive[i]
        }
}

pub open spec fn rewired_one(
    t: [u32; 3],
    live: bool,
    a: u32,
    b: u32,
    t2: [u32; 3],
    live2: bool,
) -> bool {
    if live && has_corner(t, b) {
        &&& t2[0] == moved(t[0], a, b)
        &&& t2[1] == moved(t[1], a, b)
        &&& t2[2] == moved(t[2], a, b)
        &&& live2 == !mesh::degenerate(t2)
    } else {
        t2 == t && live2 == live
    }
}

/// One round: the cheapest proposal is taken; it is dropped where its ends
/// are already one or have changed since it was made, and performed otherwise.
pub open spec fn round<M: EdgeMetric>(m: &M, s: Surface<M::Weight>, t: Surface<M::Weight>) -> bool {
    exists|c: CollapseCandidate|
        {
            let a = s.rep[c.v_a as int];
            let b = s.rep[c.v_b as int];
            &&& #[trigger] cheapest(s.queue, c)
            &&& if a == b || c.generation != s.generation[a as int] + s.generation[b as int] {
                t == with_queue(s, s.queue.remove(c))
            } else {
                merged(m, s, c, a, b, t)
            }
        }
}

/// Whether `s` is the state before the first round.
pub open spec fn initial<M: EdgeMetric>(
    m: &M,
    vertices: Seq<Point3>,
    weights: Seq<M::Weight>,
    tris: Seq<[u32; 3]>,
    s: Surface<M::Weight>,
) -> bool {
    &&& s.positions == vertices
    &&& s.weights == weights
    &&& s.tris == tris
    &&& s.alive == Seq::new(tris.len(), |i: int| true)
    &&& s.rep == Seq::new(vertices.len(), |i: int| i as u32)
    &&& s.generation == Seq::new(vertices.len(), |i: int| 0u32)
    &&& exists|edges: Seq<(u32, u32)>, made: Seq<CollapseCandidate>|
        #[trigger] proposed(m, s, edges, made) && s.queue == made.to_multiset()
}

/// Whether `edges` lists every edge once and `made` proposes to collapse each.
pub open spec fn proposed<M: EdgeMetric>(
    m: &M,
    s: Surface<M::Weight>,
    edges: Seq<(u32, u32)>,
    made: Seq<CollapseCandidate>,
) -> bool {
    &&& edges.no_duplicates()
    &&& forall|e: (u32, u32)| #[trigger] edges.contains(e) <==> is_edge(s.tris, s.tris.len() as int, e)
    &&& made.len() == edges.len()
    &&& forall|i: int| 0 <= i < made.len() ==> proposal(m, s, edges[i], #[trigger] made[i])
}

/// Whether `e` is an edge of one of the first `n` triangles.
pub open spec fn is_edge(tris: Seq<[u32; 3]>, n: int, e: (u32, u32)) -> bool {
    exists|i: int| 0 <= i < n && edge_of(#[trigger] tris[i], e)
}

pub open spec fn edge_of(t: [u32; 3], e: (u32, u32)) -> bool {
    ||| e == edge_key_spec(t[0], t[1])
    ||| e == edge_key_spec(t[1], t[2])
    ||| e == edge_key_spec(t[0], t[2])
}

/// Whether `trace` is a run from the initial state until at most `target`
/// triangles are alive or no proposal is left.
pub open spec fn reduction<M: EdgeMetric>(
    m: &M,
    vertices: Seq<Point3>,
    weights: Seq<M::Weight>,
    tris: Seq<[u32; 3]>,
    target: int,
    trace: Seq<Surface<M::Weight>>,
) -> bool {
    &&& rounds(m, vertices, weights, tris, target, trace)
    &&& {
        ||| live_count(trace.last()) <= target
        ||| trace.last().queue == Multiset::<CollapseCandidate>::empty()
    }
}

/// Whether `trace` is the beginning of a run.
pub open spec fn rounds<M: EdgeMetric>(
    m: &M,
    vertices: Seq<Point3>,
    weights: Seq<M::Weight>,
    tris: Seq<[u32; 3]>,
    target: int,
    trace: Seq<Surface<M::Weight>>,
) -> bool {
    &&& trace.len() > 0
    &&& initial(m, vertices, weights, tris, trace[0])
    &&& forall|i: int| 0 <= i < trace.len() - 1 ==> #[trigger] live_count(trace[i]) > target
    &&& forall|i: int| 0 <= i < trace.len() - 1 ==> #[trigger] round(m, trace[i], trace[i + 1])
}

pub open spec fn live_count<W>(s: Surface<W>) -> nat {
    count_true(s.alive, s.alive.len() as int)
}

/// The working data of a reduction.
pub struct Collapser<W> {
    positions: Vec<Point3>,
    weights: Vec<W>,
    tris: Vec<[u32; 3]>,
    alive: Vec<bool>,
    /// Triangles at each vertex.
    vert_tris: Vec<Vec<usize>>,
    /// The vertex that each vertex was merged into, or itself.
    redirect: Vec<u32>,
    generation: Vec<u32>,
    queue: CollapseQueue,
    /// Number of live triangles.
    live: usize,
    rep: Ghost<Seq<u32>>,
    order: Ghost<Seq<nat>>,
    gone: Ghost<Set<int>>,
}

impl<W: Copy> Collapser<W> {
    pub closed spec fn surface(self) -> Surface<W> {
        Surface {
            positions: self.positions@,
            weights: self.weights@,
            tris: self.tris@,
            alive: self.alive@,
            rep: self.rep@,
            generation: self.generation@,
            queue: self.queue.contents(),
        }
    }

    spec fn sizes(self) -> bool {
        let n = self.positions@.len();
        &&& n <= u32::MAX
        &&& self.weights@.len() == n
        &&& self.vert_tris@.len() == n
        &&& self.redirect@.len() == n
        &&& self.generation@.len() == n
        &&& self.rep@.len() == n
        &&& self.order@.len() == n
        &&& self.alive@.len() == self.tris@.len()
        &&& mesh::corners_within(self.tris@, n)
    }

    /// The merge pointers lead to the representatives.
    spec fn merges(self) -> bool {
        let n = self.positions@.len();
        let steps = self.gone@.len();
        &&& steps <= n
        &&& forall|v: int|
            0 <= v < n ==> {
                &&& (#[trigger] self.rep@[v]) < n
                &&& self.rep@[self.rep@[v] as int] == self.rep@[v]
            }
        &&& forall|v: int|
            0 <= v < n ==> {
                let r = #[trigger] self.redirect@[v];
                &&& r < n
                &&& self.rep@[r as int] == self.rep@[v]
                &&& (r == v <==> self.rep@[v] == v)
                &&& r != v ==> self.order@[v] < self.order@[r as int] && self.order@[v] < steps
                &&& r == v ==> self.order@[v] == n + 1
            }
    }

    /// Generations are bounded by the number of collapses.
    spec fn counts(self) -> bool {
        let n = self.positions@.len();
        let steps = self.gone@.len();
        &&& self.gone@.finite()
        &&& forall|v: int| #[trigger]
            self.gone@.contains(v) <==> 0 <= v < n && self.rep@[v] != v
        &&& forall|v: int| 0 <= v < n ==> (#[trigger] self.generation@[v]) <= steps
        &&& forall|v: int, w: int|
            0 <= v < n && 0 <= w < n && v != w && self.rep@[v] == v && self.rep@[w] == w ==> (
            #[trigger] self.generation@[v]) + (#[trigger] self.generation@[w]) <= steps
        &&& self.live == count_true(self.alive@, self.alive@.len() as int)
    }

    /// The lists of triangles at a vertex are right for live triangles.
    spec fn adjacency(self) -> bool {
        let n = self.positions@.len();
        &&& forall|v: int, j: int|
            0 <= v < n && 0 <= j < self.vert_tris@[v]@.len() ==> (#[trigger] self.vert_tris@[v]@[j])
                < self.tris@.len()
        &&& forall|v: int| 0 <= v < n ==> (#[trigger] self.vert_tris@[v])@.no_duplicates()
        &&& forall|v: int, t: usize|
            0 <= v < n && self.rep@[v] == v && t < self.tris@.len() && self.alive@[t as int] ==> (
            #[trigger] self.vert_tris@[v]@.contains(t) <==> has_corner(
                self.tris@[t as int],
                v as u32,
            ))
        &&& forall|i: int, c: int|
            0 <= i < self.tris@.len() && self.alive@[i] && 0 <= c < 3 ==> self.rep@[(
            #[trigger] self.tris@[i][c]) as int] == self.tris@[i][c]
    }

    spec fn queued(self) -> bool {
        &&& self.queue.wf()
        &&& forall|c: CollapseCandidate| #[trigger]
            self.queue.contents().contains(c) ==> c.v_a < self.positions@.len() && c.v_b
                < self.positions@.len()
    }

    pub closed spec fn wf(self) -> bool {
        &&& self.sizes()
        &&& self.merges()
        &&& self.counts()
        &&& self.adjacency()
        &&& self.queued()
    }

    /// Positions, triangles and which triangles are alive.
    pub fn into_parts(self) -> (r: (Vec<Point3>, Vec<[u32; 3]>, Vec<bool>))
        requires
            self.wf(),
        ensures
            r.0@ == self.surface().positions,
            r.1@ == self.surface().tris,
            r.2@ == self.surface().alive,
            r.2@.len() == r.1@.len(),
            r.0@.len() <= u32::MAX,
            mesh::corners_within(r.1@, r.0@.len()),
    {
        (self.positions, self.tris, self.alive)
    }

    /// The vertex that `v` has been merged into.
    fn resolve(&self, v: u32) -> (r: u32)
        requires
            self.sizes(),
            self.merges(),
            v < self.positions@.len(),
        ensures
            r == self.rep@[v as int],
    {
        let mut r: u32 = v;
        while self.redirect[r as usize] != r
            invariant
                self.sizes(),
                self.merges(),
                r < self.positions@.len(),
                self.rep@[r as int] == self.rep@[v as int],
            decreases self.positions@.len() + 1 - self.order@[r as int],
        {
            let next: u32 = self.redirect[r as usize];
            assert(self.redirect@[next as int] < self.positions@.len());
            r = next;
        }
        r
    }

    /// What holds of triangles and adjacency once `b` occurs in no live triangle.
    spec fn adjacency_without(self, b: u32) -> bool {
        let n = self.positions@.len();
        &&& forall|v: int, j: int|
            0 <= v < n && 0 <= j < self.vert_tris@[v]@.len() ==> (#[trigger] self.vert_tris@[v]@[j])
                < self.tris@.len()
        &&& forall|v: int| 0 <= v < n ==> (#[trigger] self.vert_tris@[v])@.no_duplicates()
        &&& forall|v: int, t: usize|
            0 <= v < n && self.rep@[v] == v && v != b && t < self.tris@.len() && self.alive@[t as int]
                ==> (#[trigger] self.vert_tris@[v]@.contains(t) <==> has_corner(
                self.tris@[t as int],
                v as u32,
            ))
        &&& forall|i: int, c: int|
            0 <= i < self.tris@.len() && self.alive@[i] && 0 <= c < 3 ==> (
            #[trigger] self.tris@[i][c]) != b && self.rep@[self.tris@[i][c] as int]
                == self.tris@[i][c]
    }

    /// Puts `a` in place of `b` in the live triangles and retires those that
    /// become degenerate.
    fn rewire(&mut self, a: u32, b: u32)
        requires
            old(self).sizes(),
            old(self).adjacency(),
            a < old(self).positions@.len(),
            b < old(self).positions@.len(),
            a != b,
            old(self).rep@[a as int] == a,
            old(self).rep@[b as int] == b,
            old(self).live == count_true(old(self).alive@, old(self).alive@.len() as int),
        ensures
            final(self).positions == old(self).positions,
            final(self).weights == old(self).weights,
            final(self).redirect == old(self).redirect,
            final(self).generation == old(self).generation,
            final(self).queue == old(self).queue,
            final(self).rep == old(self).rep,
            final(self).order == old(self).order,
            final(self).gone == old(self).gone,
            final(self).sizes(),
            rewired(
                old(self).tris@,
                old(self).alive@,
                a,
                b,
                final(self).tris@,
                final(self).alive@,
            ),
            final(self).live == count_true(final(self).alive@, final(self).alive@.len() as int),
            final(self).adjacency_without(b),
    {
        let ghost s = *self;
        let ghost list = self.vert_tris@[b as int]@;
        let ghost n = self.positions@.len();
        let len: usize = self.vert_tris[b as usize].len();
        let m: usize = self.tris.len();
        for k in 0..len
            invariant
                m == s.tris@.len(),
                len == list.len(),
                n == s.positions@.len(),
                s.sizes(),
                s.adjacency(),
                a < n,
                b < n,
                a != b,
                s.rep@[a as int] == a,
                s.rep@[b as int] == b,
                list == s.vert_tris@[b as int]@,
                self.positions == s.positions,
                self.weights == s.weights,
                self.redirect == s.redirect,
                self.generation == s.generation,
                self.queue == s.queue,
                self.rep == s.rep,
                self.order == s.order,
                self.gone == s.gone,
                self.tris@.len() == s.tris@.len(),
                self.alive@.len() == s.alive@.len(),
                self.vert_tris@.len() == n,
                mesh::corners_within(self.tris@, n),
                self.live == count_true(self.alive@, self.alive@.len() as int),
                forall|v: int| 0 <= v < n && v != a ==> (#[trigger] self.vert_tris@[v]) == s.vert_tris@[v],
                self.vert_tris@[a as int]@.no_duplicates(),
                forall|j: int|
                    0 <= j < self.vert_tris@[a as int]@.len() ==> (
                    #[trigger] self.vert_tris@[a as int]@[j]) < s.tris@.len(),
                forall|t: usize|
                    t < s.tris@.len() && self.alive@[t as int] ==> (
                    #[trigger] self.vert_tris@[a as int]@.contains(t) <==> has_corner(
                        self.tris@[t as int],
                        a,
                    )),
                rewired_in(list.take(k as int), s.tris@, s.alive@, a, b, self.tris@, self.alive@),
        {
            let ti: usize = self.vert_tris[b as usize][k];
            let ghost before = *self;
            proof {
                assert(ti == list[k as int]);
                assert(s.vert_tris@[b as int]@[k as int] == ti);
                assert(s.vert_tris@[b as int]@.contains(ti));
                assert(s.vert_tris@[b as int]@.no_duplicates());
                assert(!list.take(k as int).contains(ti)) by {
                    if list.take(k as int).contains(ti) {
                        let j = choose|j: int| 0 <= j < k && list.take(k as int)[j] == ti;
                        assert(list[j] == ti);
                    }
                }
                assert(self.tris@[ti as int] == s.tris@[ti as int]);
                assert forall|t: usize| list.take(k + 1).contains(t) <==> (list.take(k as int).contains(t) || t
                    == ti) by {
                    assert(list.take(k + 1) =~= list.take(k as int).push(ti));
                    if list.take(k as int).contains(t) {
                        let j = choose|j: int| 0 <= j < k && list.take(k as int)[j] == t;
                        assert(list.take(k + 1)[j] == t);
                    }
                    if t == ti {
                        assert(list.take(k + 1)[k as int] == t);
                    }
                }
            }
            if self.alive[ti] {
                let t: [u32; 3] = self.tris[ti];
                let x: u32 = if t[0] == b { a } else { t[0] };
                let y: u32 = if t[1] == b { a } else { t[1] };
                let z: u32 = if t[2] == b { a } else { t[2] };
                let t2: [u32; 3] = [x, y, z];
                self.tris.set(ti, t2);
                assert(t2[0] == x && t2[1] == y && t2[2] == z);
                proof {
                    assert(s.tris@[ti as int][0] < n);
                    assert(s.tris@[ti as int][1] < n);
                    assert(s.tris@[ti as int][2] < n);
                    assert(has_corner(t, b));
                }
                if x == y || y == z || x == z {
                    proof {
                        count_true_clear(self.alive@, ti as int, self.alive@.len() as int);
                        count_true_bounds(self.alive@, self.alive@.len() as int);
                    }
                    self.live = self.live - 1;
                    self.alive.set(ti, false);
                } else {
                    proof {
                        assert(!has_corner(t, a));
                        assert(!before.vert_tris@[a as int]@.contains(ti));
                    }
                    self.vert_tris[a as usize].push(ti);
                    proof {
                        let l0 = before.vert_tris@[a as int]@;
                        let l1 = self.vert_tris@[a as int]@;
                        assert(l1 == l0.push(ti));
                        assert forall|u: usize| l1.contains(u) <==> (l0.contains(u) || u == ti) by {
                            if l0.contains(u) {
                                let j = choose|j: int| 0 <= j < l0.len() && l0[j] == u;
                                assert(l1[j] == u);
                            }
                            assert(l1[l0.len() as int] == ti);
                        }
                    }
                }
            }
            proof {
                let done = list.take(k + 1);
                assert forall|i: int| 0 <= i < s.tris@.len() implies if done.contains(i as usize) {
                    rewired_one(s.tris@[i], s.alive@[i], a, b, #[trigger] self.tris@[i], self.alive@[i])
                } else {
                    self.tris@[i] == s.tris@[i] && self.alive@[i] == s.alive@[i]
                } by {
                    assert(done.contains(i as usize) <==> (list.take(k as int).contains(i as usize) || i
                        == ti));
                    if i != ti {
                        assert(self.tris@[i] == before.tris@[i]);
                        assert(self.alive@[i] == before.alive@[i]);
                    }
                }
                assert(rewired_in(done, s.tris@, s.alive@, a, b, self.tris@, self.alive@));
            }
        }
        proof {
            assert(list.take(len as int) =~= list);
            assert forall|i: int| 0 <= i < s.tris@.len() implies rewired_one(
                s.tris@[i],
                s.alive@[i],
                a,
                b,
                #[trigger] self.tris@[i],
                self.alive@[i],
            ) by {
                assert(s.vert_tris@[b as int]@.contains(i as usize) || !s.alive@[i] || !has_corner(
                    s.tris@[i],
                    b,
                ));
            }
            assert forall|v: int, t: usize|
                0 <= v < n && self.rep@[v] == v && v != b && t < self.tris@.len()
                    && self.alive@[t as int] implies (#[trigger] self.vert_tris@[v]@.contains(t)
                <==> has_corner(self.tris@[t as int], v as u32)) by {
                assert(rewired_one(
                    s.tris@[t as int],
                    s.alive@[t as int],
                    a,
                    b,
                    self.tris@[t as int],
                    self.alive@[t as int],
                ));
                if v != a {
                    assert(self.vert_tris@[v] == s.vert_tris@[v]);
                    assert(s.vert_tris@[v]@.contains(t) <==> has_corner(s.tris@[t as int], v as u32));
                }
            }
            assert forall|i: int, c: int|
                0 <= i < self.tris@.len() && self.alive@[i] && 0 <= c < 3 implies (
            #[trigger] self.tris@[i][c]) != b && self.rep@[self.tris@[i][c] as int]
                == self.tris@[i][c] by {
                assert(rewired_one(s.tris@[i], s.alive@[i], a, b, self.tris@[i], self.alive@[i]));
                assert(s.rep@[s.tris@[i][c] as int] == s.tris@[i][c]);
            }
            assert forall|v: int| 0 <= v < n implies (#[trigger] self.vert_tris@[v])@.no_duplicates() by {
                if v != a {
                    assert(s.vert_tris@[v]@.no_duplicates());
                }
            }
        }
    }

    /// Whether nothing but the queue differs.
    spec fn same_but_queue(self, o: Self) -> bool {
        &&& self.positions == o.positions
        &&& self.weights == o.weights
        &&& self.tris == o.tris
        &&& self.alive == o.alive
        &&& self.vert_tris == o.vert_tris
        &&& self.redirect == o.redirect
        &&& self.generation == o.generation
        &&& self.live == o.live
        &&& self.rep == o.rep
        &&& self.order == o.order
        &&& self.gone == o.gone
    }

    /// Puts the collapse of an edge into the queue.
    fn propose_edge<M: EdgeMetric<Weight = W>>(&mut self, m: &M, e: (u32, u32)) -> (c: CollapseCandidate)
        requires
            old(self).sizes(),
            old(self).queued(),
            e.0 < old(self).positions@.len(),
            e.1 < old(self).positions@.len(),
            old(self).generation@[e.0 as int] + old(self).generation@[e.1 as int] <= u32::MAX,
        ensures
            final(self).same_but_queue(*old(self)),
            final(self).queued(),
            final(self).queue.contents() == old(self).queue.contents().insert(c),
            proposal(m, old(self).surface(), e, c),
    {
        let a: usize = e.0 as usize;
        let b: usize = e.1 as usize;
        let (cost, target) = m.propose(
            self.positions[a],
            self.positions[b],
            self.weights[a],
            self.weights[b],
        );
        let c = CollapseCandidate {
            cost,
            v_a: e.0,
            v_b: e.1,
            target,
            generation: self.generation[a] + self.generation[b],
        };
        let ghost q = self.queue.contents();
        self.queue.push(c);
        assert forall|d: CollapseCandidate| #[trigger] self.queue.contents().contains(d) implies d.v_a
            < self.positions@.len() && d.v_b < self.positions@.len() by {
            assert(q.contains(d) || d == c);
        }
        c
    }

    /// Puts the collapses of the edges at `a` into the queue.
    fn requeue<M: EdgeMetric<Weight = W>>(&mut self, m: &M, a: u32) -> (added: Ghost<
        Seq<CollapseCandidate>,
    >)
        requires
            old(self).wf(),
            a < old(self).positions@.len(),
            old(self).rep@[a as int] == a,
        ensures
            final(self).same_but_queue(*old(self)),
            final(self).queued(),
            proposals_around(m, old(self).surface(), a, added@),
            final(self).queue.contents() == old(self).queue.contents().add(added@.to_multiset()),
    {
        let ghost s = *self;
        let ghost list = self.vert_tris@[a as int]@;
        let ghost mut places: Seq<(int, int)> = Seq::empty();
        let ghost mut added: Seq<CollapseCandidate> = Seq::empty();
        let len: usize = self.vert_tris[a as usize].len();
        let count: usize = self.tris.len();
        proof {
            broadcast use vstd::seq_lib::group_to_multiset_ensures;

            assert(added.to_multiset().len() == 0);
            assert(s.queue.contents().add(added.to_multiset()) =~= s.queue.contents());
        }
        for k in 0..len
            invariant
                count == s.tris@.len(),
                len == list.len(),
                list == s.vert_tris@[a as int]@,
                s.wf(),
                a < s.positions@.len(),
                s.rep@[a as int] == a,
                self.same_but_queue(s),
                self.queued(),
                self.queue.contents() == s.queue.contents().add(added.to_multiset()),
                places.no_duplicates(),
                places.len() == added.len(),
                forall|x: (int, int)| #[trigger]
                    places.contains(x) <==> around(s.tris@, s.alive@, a, x) && list.take(
                        k as int,
                    ).contains(x.0 as usize),
                forall|i: int|
                    0 <= i < added.len() ==> proposal(
                        m,
                        s.surface(),
                        edge_to(s.tris@, a, places[i]),
                        #[trigger] added[i],
                    ),
        {
            let ti: usize = self.vert_tris[a as usize][k];
            proof {
                assert(s.vert_tris@[a as int]@[k as int] == ti);
                assert(s.vert_tris@[a as int]@.no_duplicates());
                assert(!list.take(k as int).contains(ti)) by {
                    if list.take(k as int).contains(ti) {
                        let j = choose|j: int| 0 <= j < k && list.take(k as int)[j] == ti;
                        assert(list[j] == ti);
                    }
                }
                assert forall|t: usize| #[trigger] list.take(k + 1).contains(t) <==> (list.take(
                    k as int,
                ).contains(t) || t == ti) by {
                    assert(list.take(k + 1) =~= list.take(k as int).push(ti));
                    if list.take(k as int).contains(t) {
                        let j = choose|j: int| 0 <= j < k && list.take(k as int)[j] == t;
                        assert(list.take(k + 1)[j] == t);
                    }
                    if t == ti {
                        assert(list.take(k + 1)[k as int] == t);
                    }
                }
            }
            if self.alive[ti] {
                let t: [u32; 3] = self.tris[ti];
                proof {
                    assert(s.vert_tris@[a as int]@.contains(ti));
                    assert(has_corner(s.tris@[ti as int], a));
                }
                for c in 0..3usize
                    invariant
                        count == s.tris@.len(),
                        ti < count,
                        t == s.tris@[ti as int],
                        s.alive@[ti as int],
                        has_corner(t, a),
                        !list.take(k as int).contains(ti),
                        s.wf(),
                        a < s.positions@.len(),
                        s.rep@[a as int] == a,
                        self.same_but_queue(s),
                        self.queued(),
                        self.queue.contents() == s.queue.contents().add(added.to_multiset()),
                        places.no_duplicates(),
                        places.len() == added.len(),
                        forall|x: (int, int)| #[trigger]
                            places.contains(x) <==> around(s.tris@, s.alive@, a, x) && (list.take(
                                k as int,
                            ).contains(x.0 as usize) || (x.0 == ti && x.1 < c)),
                        forall|i: int|
                            0 <= i < added.len() ==> proposal(
                                m,
                                s.surface(),
                                edge_to(s.tris@, a, places[i]),
                                #[trigger] added[i],
                            ),
                {
                    let vi: u32 = t[c];
                    let ghost x0 = (ti as int, c as int);
                    if vi != a {
                        proof {
                            assert(s.tris@[ti as int][c as int] == vi);
                            assert(s.rep@[s.tris@[ti as int][c as int] as int] == vi);
                            assert(vi < s.positions@.len());
                            assert(s.generation@[a as int] + s.generation@[vi as int] <= s.gone@.len());
                            assert(around(s.tris@, s.alive@, a, x0));
                            assert(!places.contains(x0));
                        }
                        let cand = self.propose_edge(m, edge_key(a, vi));
                        proof {
                            broadcast use vstd::seq_lib::group_to_multiset_ensures;

                            let p0 = places;
                            let a0 = added;
                            places = places.push(x0);
                            added = added.push(cand);
                            assert(s.queue.contents().add(a0.to_multiset()).insert(cand)
                                =~= s.queue.contents().add(added.to_multiset()));
                            assert forall|x: (int, int)| #[trigger]
                                places.contains(x) <==> (p0.contains(x) || x == x0) by {
                                if p0.contains(x) {
                                    let j = choose|j: int| 0 <= j < p0.len() && p0[j] == x;
                                    assert(places[j] == x);
                                }
                                assert(places[p0.len() as int] == x0);
                            }
                            assert forall|i: int| 0 <= i < added.len() implies proposal(
                                m,
                                s.surface(),
                                edge_to(s.tris@, a, places[i]),
                                #[trigger] added[i],
                            ) by {
                                if i < a0.len() {
                                    assert(added[i] == a0[i]);
                                }
                            }
                        }
                    }
                }
            }
        }
        proof {
            assert(list.take(len as int) =~= list);
            assert forall|x: (int, int)| #[trigger]
                places.contains(x) <==> around(s.tris@, s.alive@, a, x) by {
                if around(s.tris@, s.alive@, a, x) {
                    assert(s.vert_tris@[a as int]@.contains(x.0 as usize));
                }
            }
            assert(proposals_at(m, s.surface(), a, places, added));
        }
        Ghost(added)
    }

    /// Merges `b` into `a` as `c` proposes.
    fn merge<M: EdgeMetric<Weight = W>>(&mut self, m: &M, c: CollapseCandidate, a: u32, b: u32)
        requires
            old(self).wf(),
            a < old(self).positions@.len(),
            b < old(self).positions@.len(),
            a != b,
            old(self).rep@[a as int] == a,
            old(self).rep@[b as int] == b,
        ensures
            final(self).wf(),
            forall|q: Multiset<CollapseCandidate>|
                old(self).queue.contents() == q.remove(c) ==> #[trigger] merged(
                    m,
                    with_queue(old(self).surface(), q),
                    c,
                    a,
                    b,
                    final(self).surface(),
                ),
            final(self).merges_left() < old(self).merges_left(),
    {
        let ghost s = *self;
        let ghost n = self.positions@.len();
        let ghost steps = self.gone@.len();
        proof {
            let range = vstd::set_lib::set_int_range(0, n as int);
            vstd::set_lib::lemma_int_range(0, n as int);
            assert(s.gone@.insert(b as int).subset_of(range));
            vstd::set_lib::lemma_len_subset(s.gone@.insert(b as int), range);
            assert(!s.gone@.contains(b as int));
            assert(s.generation@[a as int] <= steps && s.generation@[b as int] <= steps);
        }
        let p = m.place(self.positions[a as usize], self.positions[b as usize], c.target);
        let w = m.combine(self.weights[a as usize], self.weights[b as usize]);
        self.rewire(a, b);
        let ghost mid = *self;
        self.positions.set(a as usize, p);
        self.weights.set(a as usize, w);
        let ga: u32 = self.generation[a as usize] + 1;
        let gb: u32 = self.generation[b as usize] + 1;
        self.generation.set(a as usize, ga);
        self.generation.set(b as usize, gb);
        self.redirect.set(b as usize, a);
        self.rep = Ghost(s.rep@.map_values(|x: u32| moved(x, a, b)));
        self.order = Ghost(s.order@.update(b as int, steps));
        self.gone = Ghost(s.gone@.insert(b as int));
        proof {
            assert(self.rep@.len() == n);
            assert forall|v: int| 0 <= v < n implies (#[trigger] self.rep@[v]) < n && self.rep@[self.rep@[v] as int]
                == self.rep@[v] by {
                assert(s.rep@[v] < n);
                assert(self.rep@[v] == moved(s.rep@[v], a, b));
                assert(self.rep@[self.rep@[v] as int] == moved(s.rep@[self.rep@[v] as int], a, b));
            }
            assert forall|v: int| 0 <= v < n implies ({
                let r = #[trigger] self.redirect@[v];
                &&& r < n
                &&& self.rep@[r as int] == self.rep@[v]
                &&& (r == v <==> self.rep@[v] == v)
                &&& r != v ==> self.order@[v] < self.order@[r as int] && self.order@[v] < steps + 1
                &&& r == v ==> self.order@[v] == n + 1
            }) by {
                let r0 = s.redirect@[v];
                assert(self.rep@[v] == moved(s.rep@[v], a, b));
                assert(s.rep@[v] < n && s.rep@[s.rep@[v] as int] == s.rep@[v]);
                assert(s.redirect@[a as int] == a);
                assert(s.redirect@[b as int] == b);
            }
            assert(self.merges());
            assert forall|v: int, u: int|
                0 <= v < n && 0 <= u < n && v != u && self.rep@[v] == v && self.rep@[u] == u implies (
            #[trigger] self.generation@[v]) + (#[trigger] self.generation@[u]) <= steps + 1 by {
                assert(self.rep@[v] == moved(s.rep@[v], a, b));
                assert(self.rep@[u] == moved(s.rep@[u], a, b));
                assert(v != b && u != b);
                assert(s.generation@[v] + s.generation@[u] <= steps);
            }
            assert forall|v: int| 0 <= v < n implies (#[trigger] self.generation@[v]) <= steps + 1 by {
                assert(s.generation@[v] <= steps);
            }
            assert forall|v: int| #[trigger] self.gone@.contains(v) <==> 0 <= v < n && self.rep@[v] != v by {
                if 0 <= v < n {
                    assert(self.rep@[v] == moved(s.rep@[v], a, b));
                    assert(s.gone@.contains(v) <==> s.rep@[v] != v);
                } else {
                    assert(!s.gone@.contains(v));
                }
            }
            assert(self.counts());
            assert forall|v: int, t: usize|
                0 <= v < n && self.rep@[v] == v && t < self.tris@.len() && self.alive@[t as int] implies (
            #[trigger] self.vert_tris@[v]@.contains(t) <==> has_corner(
                self.tris@[t as int],
                v as u32,
            )) by {
                assert(self.rep@[v] == moved(s.rep@[v], a, b));
                assert(mid.vert_tris@[v]@.contains(t) <==> has_corner(mid.tris@[t as int], v as u32));
            }
            assert forall|i: int, k: int|
                0 <= i < self.tris@.len() && self.alive@[i] && 0 <= k < 3 implies self.rep@[(
            #[trigger] self.tris@[i][k]) as int] == self.tris@[i][k] by {
                assert(mid.tris@[i][k] != b);
                assert(mid.tris@[i][k] < n);
            }
            assert(self.adjacency());
            assert(self.queued());
        }
        let ghost before = *self;
        let added = self.requeue(m, a);
        proof {
            let t = self.surface();
            assert(proposals_around(m, before.surface(), a, added@));
            let places = choose|places: Seq<(int, int)>| #[trigger]
                proposals_at(m, before.surface(), a, places, added@);
            assert(proposals_at(m, t, a, places, added@)) by {
                assert forall|i: int| 0 <= i < added@.len() implies proposal(
                    m,
                    t,
                    edge_to(t.tris, a, places[i]),
                    #[trigger] added@[i],
                ) by {
                    assert(proposal(m, before.surface(), edge_to(t.tris, a, places[i]), added@[i]));
                }
            }
            assert(proposals_around(m, t, a, added@));
            assert(t.positions =~= s.positions@.update(a as int, p));
        }
    }

    /// Upper bound on the number of merges to come.
    pub closed spec fn merges_left(self) -> nat {
        (self.positions@.len() - self.gone@.len()) as nat
    }

    /// Takes the cheapest proposal and performs or drops it; `false` when there is none.
    pub fn advance<M: EdgeMetric<Weight = W>>(&mut self, m: &M) -> (more: bool)
        requires
            old(self).wf(),
        ensures
            final(self).wf(),
            more ==> round(m, old(self).surface(), final(self).surface()),
            more ==> final(self).merges_left() < old(self).merges_left() || (final(self).merges_left()
                == old(self).merges_left() && final(self).surface().queue.len() < old(
                self,
            ).surface().queue.len()),
            !more ==> final(self).surface() == old(self).surface() && old(self).surface().queue
                == Multiset::<CollapseCandidate>::empty(),
    {
        let ghost s = *self;
        let c = match self.queue.pop() {
            Some(c) => c,
            None => {
                return false;
            },
        };
        proof {
            assert(cheapest(s.surface().queue, c));
            assert forall|d: CollapseCandidate| #[trigger] self.queue.contents().contains(d) implies d.v_a
                < self.positions@.len() && d.v_b < self.positions@.len() by {
                assert(s.queue.contents().contains(d));
            }
        }
        let a: u32 = self.resolve(c.v_a);
        let b: u32 = self.resolve(c.v_b);
        assert(self.rep@[c.v_a as int] == a && self.rep@[c.v_b as int] == b);
        if a == b {
            return true;
        }
        assert(self.generation@[a as int] + self.generation@[b as int] <= self.gone@.len());
        if c.generation != self.generation[a as usize] + self.generation[b as usize] {
            return true;
        }
        let ghost q = s.queue.contents();
        let ghost before = self.surface();
        self.merge(m, c, a, b);
        proof {
            assert(with_queue(before, q) =~= s.surface());
            assert(merged(m, with_queue(before, q), c, a, b, self.surface()));
        }
        true
    }

    /// The state before the first round.
    pub fn new<M: EdgeMetric<Weight = W>>(
        m: &M,
        vertices: &Vec<Point3>,
        weights: Vec<W>,
        tris: &Vec<[u32; 3]>,
    ) -> (r: Self)
        requires
            vertices@.len() <= u32::MAX,
            weights@.len() == vertices@.len(),
            mesh::corners_within(tris@, vertices@.len()),
        ensures
            r.wf(),
            initial(m, vertices@, weights@, tris@, r.surface()),
    {
        let n: usize = vertices.len();
        let count: usize = tris.len();
        let mut redirect: Vec<u32> = Vec::new();
        let mut generation: Vec<u32> = Vec::new();
        for v in 0..n
            invariant
                n <= u32::MAX,
                redirect@ == Seq::new(v as nat, |i: int| i as u32),
                generation@ == Seq::new(v as nat, |i: int| 0u32),
        {
            redirect.push(v as u32);
            generation.push(0);
        }
        let mut alive: Vec<bool> = Vec::new();
        for t in 0..count
            invariant
                alive@ == Seq::new(t as nat, |i: int| true),
        {
            alive.push(true);
        }
        let vert_tris = corner_lists(n, tris);
        let ghost rep = Seq::new(n as nat, |i: int| i as u32);
        let ghost order = Seq::new(n as nat, |i: int| n as nat + 1);
        let mut r = Collapser {
            positions: copy_list(vertices),
            weights,
            tris: copy_list(tris),
            alive,
            vert_tris,
            redirect,
            generation,
            queue: CollapseQueue::new(),
            live: count,
            rep: Ghost(rep),
            order: Ghost(order),
            gone: Ghost(Set::empty()),
        };
        proof {
            count_all_true(r.alive@, count as int);
            assert forall|v: int, t: usize|
                0 <= v < n && r.rep@[v] == v && t < r.tris@.len() && r.alive@[t as int] implies (
            #[trigger] r.vert_tris@[v]@.contains(t) <==> has_corner(
                r.tris@[t as int],
                v as u32,
            )) by {}
            assert forall|i: int, c: int|
                0 <= i < r.tris@.len() && r.alive@[i] && 0 <= c < 3 implies r.rep@[(
            #[trigger] r.tris@[i][c]) as int] == r.tris@[i][c] by {}
            assert(r.adjacency());
        }
        let (Ghost(edges), Ghost(made)) = r.propose_all(m);
        proof {
            let s = r.surface();
            assert(s.alive =~= Seq::new(tris@.len(), |i: int| true));
            assert(proposed(m, s, edges, made));
        }
        r
    }

    /// Puts the collapse of every edge into the empty queue of the initial state.
    fn propose_all<M: EdgeMetric<Weight = W>>(&mut self, m: &M) -> (r: (
        Ghost<Seq<(u32, u32)>>,
        Ghost<Seq<CollapseCandidate>>,
    ))
        requires
            old(self).wf(),
            forall|v: int| 0 <= v < old(self).generation@.len() ==> old(self).generation@[v] == 0,
            old(self).queue.contents() == Multiset::<CollapseCandidate>::empty(),
        ensures
            final(self).wf(),
            final(self).same_but_queue(*old(self)),
            proposed(m, final(self).surface(), r.0@, r.1@),
            final(self).surface().queue == r.1@.to_multiset(),
    {
        let ghost s = *self;
        let ghost mut edges: Seq<(u32, u32)> = Seq::empty();
        let ghost mut made: Seq<CollapseCandidate> = Seq::empty();
        let mut seen: std::collections::HashSet<u64> = std::collections::HashSet::new();
        let count: usize = self.tris.len();
        proof {
            broadcast use vstd::seq_lib::group_to_multiset_ensures;

            assert(made.to_multiset().len() == 0);
            assert(made.to_multiset() =~= Multiset::empty());
        }
        for i in 0..count
            invariant
                count == s.tris@.len(),
                s.wf(),
                forall|v: int| 0 <= v < s.generation@.len() ==> s.generation@[v] == 0,
                self.same_but_queue(s),
                self.queued(),
                self.queue.contents() == made.to_multiset(),
                listed(m, s.surface(), edges, made, seen@),
                forall|e: (u32, u32)| #[trigger] edges.contains(e) <==> is_edge(s.tris@, i as int, e),
        {
            let t: [u32; 3] = self.tris[i];
            let ghost e0 = edges;
            proof {
                assert(s.tris@[i as int][0] < s.positions@.len());
                assert(s.tris@[i as int][1] < s.positions@.len());
                assert(s.tris@[i as int][2] < s.positions@.len());
            }
            for c in 0..3usize
                invariant
                    t == s.tris@[i as int],
                    t[0] < s.positions@.len(),
                    t[1] < s.positions@.len(),
                    t[2] < s.positions@.len(),
                    s.wf(),
                    forall|v: int| 0 <= v < s.generation@.len() ==> s.generation@[v] == 0,
                    self.same_but_queue(s),
                    self.queued(),
                    self.queue.contents() == made.to_multiset(),
                    listed(m, s.surface(), edges, made, seen@),
                    forall|e: (u32, u32)| #[trigger]
                        edges.contains(e) <==> e0.contains(e) || (c > 0 && e == edge_key_spec(t[0], t[1]))
                            || (c > 1 && e == edge_key_spec(t[1], t[2])) || (c > 2 && e == edge_key_spec(
                            t[0],
                            t[2],
                        )),
            {
                let e: (u32, u32) = if c == 0 {
                    edge_key(t[0], t[1])
                } else if c == 1 {
                    edge_key(t[1], t[2])
                } else {
                    edge_key(t[0], t[2])
                };
                let key: u64 = e.0 as u64 * 0x1_0000_0000 + e.1 as u64;
                proof {
                    edge_code_unique(s.surface(), edges, e);
                }
                if seen.insert(key) {
                    let cand = self.propose_edge(m, e);
                    proof {
                        broadcast use vstd::seq_lib::group_to_multiset_ensures;

                        let e1 = edges;
                        let m1 = made;
                        edges = edges.push(e);
                        made = made.push(cand);
                        assert forall|x: (u32, u32)| #[trigger] edges.contains(x) <==> (e1.contains(x) || x
                            == e) by {
                            if e1.contains(x) {
                                let j = choose|j: int| 0 <= j < e1.len() && e1[j] == x;
                                assert(edges[j] == x);
                            }
                            assert(edges[e1.len() as int] == e);
                        }
                        assert forall|k: u64| #[trigger] seen@.contains(k) <==> exists|j: int|
                            0 <= j < edges.len() && k == edge_code(#[trigger] edges[j]) by {
                            if seen@.contains(k) {
                                if k == key {
                                    assert(edges[e1.len() as int] == e);
                                } else {
                                    let j = choose|j: int| 0 <= j < e1.len() && k == edge_code(
                                        #[trigger] e1[j],
                                    );
                                    assert(edges[j] == e1[j]);
                                }
                            }
                            if exists|j: int| 0 <= j < edges.len() && k == edge_code(#[trigger] edges[j]) {
                                let j = choose|j: int| 0 <= j < edges.len() && k == edge_code(
                                    #[trigger] edges[j],
                                );
                                if j < e1.len() {
                                    assert(e1[j] == edges[j]);
                                }
                            }
                        }
                        assert forall|j: int| 0 <= j < made.len() implies proposal(
                            m,
                            s.surface(),
                            edges[j],
                            #[trigger] made[j],
                        ) by {
                            if j < m1.len() {
                                assert(made[j] == m1[j]);
                                assert(edges[j] == e1[j]);
                            }
                        }
                        assert(!e1.contains(e));
                    }
                } else {
                    assert(edges.contains(e));
                }
            }
            proof {
                assert forall|e: (u32, u32)| #[trigger] edges.contains(e) <==> is_edge(
                    s.tris@,
                    i + 1,
                    e,
                ) by {
                    if is_edge(s.tris@, i as int, e) {
                        let j = choose|j: int| 0 <= j < i && edge_of(#[trigger] s.tris@[j], e);
                        assert(edge_of(s.tris@[j], e));
                    }
                    if edge_of(t, e) {
                        assert(edge_of(s.tris@[i as int], e));
                    }
                    if is_edge(s.tris@, i + 1, e) {
                        let j = choose|j: int| 0 <= j < i + 1 && edge_of(#[trigger] s.tris@[j], e);
                        if j < i {
                            assert(is_edge(s.tris@, i as int, e));
                        }
                    }
                }
            }
        }
        proof {
            assert forall|j: int| 0 <= j < made.len() implies proposal(
                m,
                self.surface(),
                edges[j],
                #[trigger] made[j],
            ) by {
                assert(proposal(m, s.surface(), edges[j], made[j]));
            }
        }
        (Ghost(edges), Ghost(made))
    }

    /// Performs rounds until at most `target` triangles are alive or no proposal is left.
    pub fn run<M: EdgeMetric<Weight = W>>(
        m: &M,
        vertices: &Vec<Point3>,
        weights: Vec<W>,
        tris: &Vec<[u32; 3]>,
        target: usize,
    ) -> (r: Self)
        requires
            vertices@.len() <= u32::MAX,
            weights@.len() == vertices@.len(),
            mesh::corners_within(tris@, vertices@.len()),
        ensures
            r.wf(),
            exists|trace: Seq<Surface<W>>| #[trigger]
                reduction(m, vertices@, weights@, tris@, target as int, trace) && trace.last()
                    == r.surface(),
    {
        let ghost w = weights@;
        let mut r = Self::new(m, vertices, weights, tris);
        let ghost mut trace: Seq<Surface<W>> = seq![r.surface()];
        let mut more = true;
        while more && r.live > target
            invariant
                r.wf(),
                rounds(m, vertices@, w, tris@, target as int, trace),
                trace.last() == r.surface(),
                !more ==> r.surface().queue == Multiset::<CollapseCandidate>::empty(),
            decreases (if more { 1int } else { 0int }), r.merges_left(), r.surface().queue.len(),
        {
            assert(live_count(r.surface()) == r.live);
            more = r.advance(m);
            proof {
                if more {
                    let t0 = trace;
                    trace = trace.push(r.surface());
                    assert forall|i: int| 0 <= i < trace.len() - 1 implies #[trigger] live_count(trace[i])
                        > target by {
                        assert(trace[i] == t0[i]);
                    }
                    assert forall|i: int| 0 <= i < trace.len() - 1 implies #[trigger] round(
                        m,
                        trace[i],
                        trace[i + 1],
                    ) by {
                        if i < t0.len() - 1 {
                            assert(round(m, t0[i], t0[i + 1]));
                        }
                    }
                    assert(trace[0] == t0[0]);
                    assert(rounds(m, vertices@, w, tris@, target as int, trace));
                }
            }
        }
        assert(live_count(r.surface()) == r.live);
        assert(reduction(m, vertices@, w, tris@, target as int, trace));
        r
    }
}

/// The number under which an edge is remembered.
spec fn edge_code(e: (u32, u32)) -> int {
    e.0 * 0x1_0000_0000 + e.1
}

/// Whether the remembered numbers are those of the listed edges.
spec fn listed<M: EdgeMetric>(
    m: &M,
    s: Surface<M::Weight>,
    edges: Seq<(u32, u32)>,
    made: Seq<CollapseCandidate>,
    seen: Set<u64>,
) -> bool {
    &&& edges.no_duplicates()
    &&& edges.len() == made.len()
    &&& forall|i: int| 0 <= i < made.len() ==> proposal(m, s, edges[i], #[trigger] made[i])
    &&& forall|k: u64| #[trigger]
        seen.contains(k) <==> exists|j: int| 0 <= j < edges.len() && k == edge_code(#[trigger] edges[j])
}

proof fn edge_code_unique<W>(s: Surface<W>, edges: Seq<(u32, u32)>, e: (u32, u32))
    ensures
        0 <= edge_code(e) <= u64::MAX,
        (exists|j: int| 0 <= j < edges.len() && edge_code(e) == edge_code(#[trigger] edges[j]))
            <==> edges.contains(e),
{
    if exists|j: int| 0 <= j < edges.len() && edge_code(e) == edge_code(#[trigger] edges[j]) {
        let j = choose|j: int| 0 <= j < edges.len() && edge_code(e) == edge_code(#[trigger] edges[j]);
        assert(edges[j] == e);
    }
    if edges.contains(e) {
        let j = choose|j: int| 0 <= j < edges.len() && edges[j] == e;
        assert(edge_code(edges[j]) == edge_code(e));
    }
}

proof fn count_all_true(s: Seq<bool>, n: int)
    requires
        0 <= n <= s.len(),
        forall|i: int| 0 <= i < n ==> s[i],
    ensures
        count_true(s, n) == n,
    decreases n,
{
    if n > 0 {
        count_all_true(s, n - 1);
    }
}

/// Lists the triangles at each vertex.
fn corner_lists(n: usize, tris: &Vec<[u32; 3]>) -> (r: Vec<Vec<usize>>)
    requires
        n <= u32::MAX,
        mesh::corners_within(tris@, n as nat),
    ensures
        r@.len() == n,
        forall|v: int, j: int|
            0 <= v < n && 0 <= j < r@[v]@.len() ==> (#[trigger] r@[v]@[j]) < tris@.len(),
        forall|v: int| 0 <= v < n ==> (#[trigger] r@[v])@.no_duplicates(),
        forall|v: int, t: usize|
            0 <= v < n && t < tris@.len() ==> (#[trigger] r@[v]@.contains(t) <==> has_corner(
                tris@[t as int],
                v as u32,
            )),
{
    let mut r: Vec<Vec<usize>> = Vec::new();
    for v in 0..n
        invariant
            r@.len() == v,
            forall|u: int| 0 <= u < v ==> (#[trigger] r@[u])@.len() == 0,
    {
        r.push(Vec::new());
    }
    for i in 0..tris.len()
        invariant
            n <= u32::MAX,
            mesh::corners_within(tris@, n as nat),
            r@.len() == n,
            forall|v: int, j: int| 0 <= v < n && 0 <= j < r@[v]@.len() ==> (#[trigger] r@[v]@[j]) < i,
            forall|v: int| 0 <= v < n ==> (#[trigger] r@[v])@.no_duplicates(),
            forall|v: int, t: usize|
                0 <= v < n && t < i ==> (#[trigger] r@[v]@.contains(t) <==> has_corner(
                    tris@[t as int],
                    v as u32,
                )),
    {
        let t: [u32; 3] = tris[i];
        let ghost r0 = r@;
        assert(tris@[i as int][0] < n && tris@[i as int][1] < n && tris@[i as int][2] < n);
        r[t[0] as usize].push(i);
        if t[1] != t[0] {
            r[t[1] as usize].push(i);
        }
        if t[2] != t[0] && t[2] != t[1] {
            r[t[2] as usize].push(i);
        }
        assert forall|v: int| 0 <= v < n implies (#[trigger] r@[v])@ == (if has_corner(t, v as u32) {
            r0[v]@.push(i)
        } else {
            r0[v]@
        }) by {}
        assert forall|v: int, u: usize| 0 <= v < n && u < i + 1 implies (#[trigger] r@[v]@.contains(u)
            <==> has_corner(tris@[u as int], v as u32)) by {
            assert(r@[v]@ == (if has_corner(t, v as u32) {
                r0[v]@.push(i)
            } else {
                r0[v]@
            }));
            if u < i {
                assert(r0[v]@.contains(u) <==> has_corner(tris@[u as int], v as u32));
                if r0[v]@.contains(u) {
                    let j = choose|j: int| 0 <= j < r0[v]@.len() && r0[v]@[j] == u;
                    assert(r@[v]@[j] == u);
                }
            } else if has_corner(t, v as u32) {
                assert(r@[v]@[r0[v]@.len() as int] == u);
            } else if r@[v]@.contains(u) {
                let j = choose|j: int| 0 <= j < r0[v]@.len() && r0[v]@[j] == u;
                assert(r0[v]@[j] < i);
            }
        }
        assert forall|v: int| 0 <= v < n implies (#[trigger] r@[v])@.no_duplicates() by {
            assert(r0[v]@.no_duplicates());
        }
    }
    r
}

} // verus!
