//! Numbering of distinct triples in order of first occurrence.

use vstd::prelude::*;

verus! {

/// A triple of machine words.
pub type Triple = (u64, u64, u64);

/// A hash table from triples to their position in the list of distinct triples.
pub struct Interner {
    keys: Vec<Triple>,
    buckets: Vec<Vec<usize>>,
}

spec fn slot_spec(k: Triple, n: int) -> int {
    (k.0.wrapping_mul(31).wrapping_add(k.1).wrapping_mul(31).wrapping_add(k.2) as int) % n
}

fn slot(k: Triple, n: usize) -> (r: usize)
    requires
        n > 0,
    ensures
        r == slot_spec(k, n as int),
        r < n,
{
    let h: u64 = k.0.wrapping_mul(31).wrapping_add(k.1).wrapping_mul(31).wrapping_add(k.2);
    (h % (n as u64)) as usize
}

impl View for Interner {
    type V = Seq<Triple>;

    /// The distinct triples in order of first occurrence.
    closed spec fn view(&self) -> Seq<Triple> {
        self.keys@
    }
}

impl Interner {
    pub closed spec fn wf(self) -> bool {
        &&& self.keys@.no_duplicates()
        &&& self.buckets@.len() > 0
        &&& forall|b: int, j: int|
            0 <= b < self.buckets@.len() && 0 <= j < self.buckets@[b]@.len() ==> (
            #[trigger] self.buckets@[b]@[j]) < self.keys@.len()
        &&& forall|i: int|
            0 <= i < self.keys@.len() ==> self.buckets@[slot_spec(
                #[trigger] self.keys@[i],
                self.buckets@.len() as int,
            )]@.contains(i as usize)
    }

    /// An empty table meant for about `size` triples.
    pub fn new(size: usize) -> (r: Self)
        ensures
            r.wf(),
            r@ == Seq::<Triple>::empty(),
    {
        let n: usize = if size == 0 { 1 } else { size };
        let mut buckets: Vec<Vec<usize>> = Vec::new();
        for i in 0..n
            invariant
                buckets@.len() == i,
                forall|b: int| 0 <= b < i ==> (#[trigger] buckets@[b])@.len() == 0,
        {
            buckets.push(Vec::new());
        }
        Interner { keys: Vec::new(), buckets }
    }

    /// How many distinct triples there are.
    pub fn len(&self) -> (n: usize)
        ensures
            n == self@.len(),
    {
        self.keys.len()
    }

    /// The triple with the given number.
    pub fn key(&self, i: usize) -> (k: Triple)
        requires
            i < self@.len(),
        ensures
            k == self@[i as int],
    {
        self.keys[i]
    }

    /// The number of `key`, which is added when it is new.
    pub fn intern(&mut self, key: Triple) -> (r: usize)
        requires
            old(self).wf(),
        ensures
            final(self).wf(),
            r < final(self)@.len(),
            final(self)@[r as int] == key,
            final(self)@ == (if old(self)@.contains(key) {
                old(self)@
            } else {
                old(self)@.push(key)
            }),
            !old(self)@.contains(key) ==> r == old(self)@.len(),
    {
        let b: usize = slot(key, self.buckets.len());
        let len: usize = self.buckets[b].len();
        for j in 0..len
            invariant
                len == self.buckets@[b as int]@.len(),
                self.wf(),
                *self == *old(self),
                b == slot_spec(key, self.buckets@.len() as int),
                b < self.buckets@.len(),
                forall|i: int|
                    0 <= i < j ==> self.keys@[(#[trigger] self.buckets@[b as int]@[i]) as int] != key,
        {
            let i: usize = self.buckets[b][j];
            assert(self.buckets@[b as int]@[j as int] < self.keys@.len());
            let k = self.keys[i];
            if k.0 == key.0 && k.1 == key.1 && k.2 == key.2 {
                return i;
            }
        }
        let n: usize = self.keys.len();
        proof {
            if self.keys@.contains(key) {
                let i = choose|i: int| 0 <= i < self.keys@.len() && self.keys@[i] == key;
                assert(self.buckets@[b as int]@.contains(i as usize));
                let j = choose|j: int|
                    0 <= j < self.buckets@[b as int]@.len() && self.buckets@[b as int]@[j] == i as usize;
                assert(self.keys@[self.buckets@[b as int]@[j] as int] != key);
            }
        }
        let ghost k0 = self.keys@;
        let ghost b0 = self.buckets@;
        self.keys.push(key);
        self.buckets[b].push(n);
        proof {
            assert(self.buckets@.len() == b0.len());
            assert forall|c: int, j: int|
                0 <= c < self.buckets@.len() && 0 <= j < self.buckets@[c]@.len() implies (
            #[trigger] self.buckets@[c]@[j]) < self.keys@.len() by {
                if c == b {
                    if j < b0[c]@.len() {
                        assert(b0[c]@[j] < k0.len());
                    }
                } else {
                    assert(self.buckets@[c] == b0[c]);
                    assert(b0[c]@[j] < k0.len());
                }
            }
            assert forall|i: int| 0 <= i < self.keys@.len() implies self.buckets@[slot_spec(
                #[trigger] self.keys@[i],
                self.buckets@.len() as int,
            )]@.contains(i as usize) by {
                let c = slot_spec(self.keys@[i], b0.len() as int);
                if i < k0.len() {
                    assert(b0[slot_spec(k0[i], b0.len() as int)]@.contains(i as usize));
                    let j = choose|j: int| 0 <= j < b0[c]@.len() && b0[c]@[j] == i as usize;
                    assert(self.buckets@[c]@[j] == i as usize);
                } else {
                    assert(self.buckets@[b as int]@[b0[b as int]@.len() as int] == n);
                }
            }
        }
        n
    }
}

/// The distinct entries among the first `n`, in order of first occurrence.
pub open spec fn distinct(keys: Seq<Triple>, n: int) -> Seq<Triple>
    decreases n,
{
    if n <= 0 {
        Seq::empty()
    } else {
        let d = distinct(keys, n - 1);
        if d.contains(keys[n - 1]) {
            d
        } else {
            d.push(keys[n - 1])
        }
    }
}

/// Every entry is among the distinct ones, which have no duplicates.
pub proof fn distinct_facts(keys: Seq<Triple>, n: int)
    requires
        0 <= n <= keys.len(),
    ensures
        distinct(keys, n).len() <= n,
        distinct(keys, n).no_duplicates(),
        forall|v: int| 0 <= v < n ==> distinct(keys, n).contains(#[trigger] keys[v]),
    decreases n,
{
    if n > 0 {
        distinct_facts(keys, n - 1);
        let d = distinct(keys, n - 1);
        assert forall|v: int| 0 <= v < n implies distinct(keys, n).contains(#[trigger] keys[v]) by {
            if v < n - 1 {
                assert(d.contains(keys[v]));
                let j = choose|j: int| 0 <= j < d.len() && d[j] == keys[v];
                assert(distinct(keys, n)[j] == keys[v]);
            } else if !d.contains(keys[n - 1]) {
                assert(distinct(keys, n)[d.len() as int] == keys[v]);
            }
        }
    }
}

} // verus!
