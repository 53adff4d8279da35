//! A priority queue of edge collapses, cheapest first.

use vstd::prelude::*;
use vstd::multiset::Multiset;
use crate::number::{Point3, Real};

verus! {

/// A proposal to merge the two ends of an edge.
#[derive(Clone, Copy, PartialEq, Eq, Structural, Debug)]
pub struct CollapseCandidate {
    pub cost: Real,
    /// Ends of the edge, smaller index first.
    pub v_a: u32,
    pub v_b: u32,
    /// Where the merged vertex goes.
    pub target: Point3,
    /// Sum of the ends' generations when the proposal was made.
    pub generation: u32,
}

/// Binary min-heap on the rank of the cost.
pub struct CollapseQueue {
    items: Vec<CollapseCandidate>,
}

spec fn parent(i: int) -> int {
    (i - 1) / 2
}

/// Whether the element at `j` ranks no earlier than the one at `p`.
spec fn after(s: Seq<CollapseCandidate>, p: int, j: int) -> bool {
    s[p].cost.rank() <= s[j].cost.rank()
}

/// Whether no element ranks before its parent, with a possible exception at `hole`.
spec fn ordered_except(s: Seq<CollapseCandidate>, hole: int) -> bool {
    &&& forall|j: int| 0 < j < s.len() && j != hole ==> #[trigger] after(s, parent(j), j)
    &&& hole > 0 ==> forall|j: int|
        0 < j < s.len() && parent(j) == hole ==> #[trigger] after(s, parent(hole), j)
}

/// Whether no element ranks before its parent, with possible exceptions below `hole`.
spec fn ordered_except_below(s: Seq<CollapseCandidate>, hole: int) -> bool {
    &&& forall|j: int| 0 < j < s.len() && parent(j) != hole ==> #[trigger] after(s, parent(j), j)
    &&& hole > 0 ==> forall|j: int|
        0 < j < s.len() && parent(j) == hole ==> #[trigger] after(s, parent(hole), j)
}

spec fn ordered(s: Seq<CollapseCandidate>) -> bool {
    forall|j: int| 0 < j < s.len() ==> #[trigger] after(s, parent(j), j)
}

proof fn root_is_least(s: Seq<CollapseCandidate>, i: int)
    requires
        ordered(s),
        0 <= i < s.len(),
    ensures
        s[0].cost.rank() <= s[i].cost.rank(),
    decreases i,
{
    if i > 0 {
        root_is_least(s, parent(i));
        assert(after(s, parent(i), i));
    }
}

proof fn update_multiset(s: Seq<CollapseCandidate>, i: int, x: CollapseCandidate)
    requires
        0 <= i < s.len(),
    ensures
        s.update(i, x).to_multiset() == s.to_multiset().remove(s[i]).insert(x),
{
    broadcast use vstd::seq_lib::group_to_multiset_ensures;

    assert(s.update(i, x) =~= s.remove(i).insert(i, x));
}

proof fn swap_multiset(s: Seq<CollapseCandidate>, i: int, j: int)
    requires
        0 <= i < s.len(),
        0 <= j < s.len(),
        i != j,
    ensures
        s.update(i, s[j]).update(j, s[i]).to_multiset() == s.to_multiset(),
{
    broadcast use vstd::seq_lib::group_to_multiset_ensures;

    update_multiset(s, i, s[j]);
    let t = s.update(i, s[j]);
    update_multiset(t, j, s[i]);
    assert(s.contains(s[i]));
    assert(t.contains(t[j]));
    assert(s.to_multiset().count(s[i]) > 0);
    assert(t.update(j, s[i]).to_multiset() =~= s.to_multiset());
}

/// Replacing the first element by the last removes the first one's value.
proof fn drop_front_multiset(s: Seq<CollapseCandidate>)
    requires
        s.len() > 1,
    ensures
        s.drop_last().update(0, s.last()).to_multiset() == s.to_multiset().remove(s[0]),
{
    broadcast use vstd::seq_lib::group_to_multiset_ensures;

    let last = s.len() - 1;
    let t = s.remove(last);
    assert(t =~= s.drop_last());
    update_multiset(t, 0, s.last());
    assert(s.contains(s.last()));
    assert(t.contains(t[0]));
    assert(t.update(0, s.last()).to_multiset() =~= s.to_multiset().remove(s[0]));
}

proof fn root_is_least_of_all(s: Seq<CollapseCandidate>)
    requires
        ordered(s),
        s.len() > 0,
    ensures
        s.to_multiset().contains(s[0]),
        forall|d: CollapseCandidate|
            s.to_multiset().contains(d) ==> s[0].cost.rank() <= (#[trigger] d.cost.rank()),
{
    broadcast use vstd::seq_lib::group_to_multiset_ensures;

    assert(s.contains(s[0]));
    assert forall|d: CollapseCandidate| s.to_multiset().contains(d) implies s[0].cost.rank() <= (
    #[trigger] d.cost.rank()) by {
        let k = choose|k: int| 0 <= k < s.len() && s[k] == d;
        root_is_least(s, k);
    }
}

impl CollapseQueue {
    /// No element ranks before its parent.
    pub closed spec fn wf(self) -> bool {
        ordered(self.items@)
    }

    /// What the queue holds.
    pub closed spec fn contents(self) -> Multiset<CollapseCandidate> {
        self.items@.to_multiset()
    }

    pub fn new() -> (q: Self)
        ensures
            q.wf(),
            q.contents() == Multiset::<CollapseCandidate>::empty(),
    {
        let q = CollapseQueue { items: Vec::new() };
        proof {
            broadcast use vstd::seq_lib::group_to_multiset_ensures;

            assert(q.contents().len() == 0);
            assert(q.contents() =~= Multiset::empty());
        }
        q
    }

    pub fn push(&mut self, c: CollapseCandidate)
        requires
            old(self).wf(),
        ensures
            final(self).wf(),
            final(self).contents() == old(self).contents().insert(c),
    {
        let ghost before = self.items@;
        self.items.push(c);
        let mut i: usize = self.items.len() - 1;
        proof {
            broadcast use vstd::seq_lib::group_to_multiset_ensures;

            assert(self.items@ =~= before.push(c));
            assert forall|j: int| 0 < j < before.len() implies #[trigger] after(
                self.items@,
                parent(j),
                j,
            ) by {
                assert(after(before, parent(j), j));
            }
        }
        while i > 0 && self.items[i].cost.ranks_before(self.items[(i - 1) / 2].cost)
            invariant
                i < self.items.len(),
                ordered_except(self.items@, i as int),
                self.items@.to_multiset() == before.to_multiset().insert(c),
            ensures
                ordered(self.items@),
                self.items@.to_multiset() == before.to_multiset().insert(c),
            decreases i,
        {
            let p: usize = (i - 1) / 2;
            let ghost s = self.items@;
            let x = self.items[i];
            let y = self.items[p];
            self.items.set(i, y);
            self.items.set(p, x);
            proof {
                swap_multiset(s, i as int, p as int);
                let t = self.items@;
                assert(t =~= s.update(i as int, s[p as int]).update(p as int, s[i as int]));
                assert forall|j: int| 0 < j < t.len() && j != p implies #[trigger] after(
                    t,
                    parent(j),
                    j,
                ) by {
                    if j == i {
                    } else if parent(j) == i {
                        assert(after(s, parent(i as int), j));
                    } else {
                        assert(after(s, parent(j), j));
                    }
                }
                if p > 0 {
                    assert(after(s, parent(p as int), p as int));
                    assert forall|j: int| 0 < j < t.len() && parent(j) == p implies #[trigger] after(
                        t,
                        parent(p as int),
                        j,
                    ) by {
                        if j != i {
                            assert(after(s, parent(j), j));
                        }
                    }
                }
            }
            i = p;
        }
    }

    /// Moves the first element down to where it belongs.
    fn sift_down(&mut self)
        requires
            old(self).items@.len() > 0,
            ordered_except_below(old(self).items@, 0),
        ensures
            ordered(final(self).items@),
            final(self).items@.to_multiset() == old(self).items@.to_multiset(),
    {
        let ghost before = self.items@;
        let n: usize = self.items.len();
        let mut i: usize = 0;
        let mut done = false;
        while !done
            invariant
                n == self.items.len(),
                i < n,
                ordered_except_below(self.items@, i as int),
                done ==> ordered(self.items@),
                self.items@.to_multiset() == before.to_multiset(),
            decreases n - i, (if done { 0int } else { 1int }),
        {
            let ghost s = self.items@;
            if i >= (n - 1) / 2 + (n - 1) % 2 {
                done = true;
            } else {
                let mut m: usize = 2 * i + 1;
                if m + 1 < n && self.items[m + 1].cost.ranks_before(self.items[m].cost) {
                    m = m + 1;
                }
                if self.items[m].cost.ranks_before(self.items[i].cost) {
                    let a = self.items[i];
                    let b = self.items[m];
                    self.items.set(i, b);
                    self.items.set(m, a);
                    proof {
                        swap_multiset(s, i as int, m as int);
                        let t = self.items@;
                        assert(t =~= s.update(i as int, s[m as int]).update(m as int, s[i as int]));
                        assert forall|j: int| 0 < j < t.len() && parent(j) != m implies #[trigger] after(
                            t,
                            parent(j),
                            j,
                        ) by {
                            if j == m {
                            } else if parent(j) == i {
                                assert(j == 2 * i + 1 || j == 2 * i + 2);
                            } else if j == i {
                                assert(after(s, parent(i as int), m as int));
                            } else {
                                assert(after(s, parent(j), j));
                            }
                        }
                        assert forall|j: int| 0 < j < t.len() && parent(j) == m implies #[trigger] after(
                            t,
                            parent(m as int),
                            j,
                        ) by {
                            assert(after(s, parent(j), j));
                        }
                    }
                    i = m;
                } else {
                    proof {
                        assert forall|j: int| 0 < j < n implies #[trigger] after(s, parent(j), j) by {
                            if parent(j) == i {
                                assert(j == 2 * i + 1 || j == 2 * i + 2);
                            }
                        }
                    }
                    done = true;
                }
            }
        }
    }

    /// Takes out a proposal than which none is cheaper.
    pub fn pop(&mut self) -> (r: Option<CollapseCandidate>)
        requires
            old(self).wf(),
        ensures
            final(self).wf(),
            match r {
                None => old(self).contents() == Multiset::<CollapseCandidate>::empty()
                    && final(self).contents() == old(self).contents(),
                Some(c) => {
                    &&& old(self).contents().contains(c)
                    &&& forall|d: CollapseCandidate|
                        old(self).contents().contains(d) ==> c.cost.rank() <= (
                        #[trigger] d.cost.rank())
                    &&& final(self).contents() == old(self).contents().remove(c)
                },
            },
    {
        let ghost before = self.items@;
        if self.items.len() == 0 {
            proof {
                broadcast use vstd::seq_lib::group_to_multiset_ensures;

                assert(self.contents().len() == 0);
                assert(self.contents() =~= Multiset::empty());
            }
            return None;
        }
        let top = self.items[0];
        proof {
            root_is_least_of_all(before);
        }
        let last = self.items.len() - 1;
        if last == 0 {
            let _ = self.items.pop();
            proof {
                broadcast use vstd::seq_lib::group_to_multiset_ensures;

                assert(self.items@ =~= before.remove(0));
            }
            return Some(top);
        }
        let x = self.items[last];
        self.items.set(0, x);
        let _ = self.items.pop();
        proof {
            drop_front_multiset(before);
            assert(self.items@ =~= before.drop_last().update(0, before.last()));
            assert forall|j: int| 0 < j < self.items@.len() && parent(j) != 0 implies #[trigger] after(
                self.items@,
                parent(j),
                j,
            ) by {
                assert(after(before, parent(j), j));
            }
        }
        self.sift_down();
        Some(top)
    }
}

} // verus!
