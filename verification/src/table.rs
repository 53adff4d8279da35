//! Tables from names to values in which later entries hide earlier ones.

use vstd::prelude::*;
use crate::text::same_text;

verus! {

/// A list of named values.
pub struct Table<T> {
    rows: Vec<(String, T)>,
}

/// The value of the last entry with the given name.
pub open spec fn lookup<V>(t: Seq<(Seq<char>, V)>, name: Seq<char>) -> Option<V>
    decreases t.len(),
{
    if t.len() == 0 {
        None
    } else if t.last().0 == name {
        Some(t.last().1)
    } else {
        lookup(t.drop_last(), name)
    }
}

impl<T: View> View for Table<T> {
    type V = Seq<(Seq<char>, T::V)>;

    closed spec fn view(&self) -> Seq<(Seq<char>, T::V)> {
        self.rows@.map_values(|r: (String, T)| (r.0@, r.1@))
    }
}

impl<T: View> Table<T> {
    pub fn new() -> (r: Self)
        ensures
            r@ == Seq::<(Seq<char>, T::V)>::empty(),
    {
        let r = Table { rows: Vec::new() };
        assert(r@ =~= Seq::<(Seq<char>, T::V)>::empty());
        r
    }

    pub fn len(&self) -> (n: usize)
        ensures
            n == self@.len(),
    {
        self.rows.len()
    }

    /// Adds an entry, which hides earlier ones of its name.
    pub fn put(&mut self, name: String, value: T)
        ensures
            final(self)@ == old(self)@.push((name@, value@)),
    {
        let ghost before = self@;
        self.rows.push((name, value));
        assert(self@ =~= before.push((name@, value@)));
    }

    /// The entry at a place.
    pub fn row(&self, i: usize) -> (r: (&str, &T))
        requires
            i < self@.len(),
        ensures
            r.0@ == self@[i as int].0,
            r.1@ == self@[i as int].1,
    {
        (self.rows[i].0.as_str(), &self.rows[i].1)
    }

    /// The value of the last entry with the given name.
    pub fn get(&self, name: &str) -> (r: Option<&T>)
        ensures
            match r {
                Some(v) => lookup(self@, name@) == Some(v@),
                None => lookup(self@, name@) is None,
            },
    {
        let mut i: usize = self.rows.len();
        assert(self@.take(i as int) =~= self@);
        while i > 0
            invariant
                i <= self@.len(),
                self@.len() == self.rows@.len(),
                lookup(self@, name@) == lookup(self@.take(i as int), name@),
            decreases i,
        {
            i = i - 1;
            assert(self@.take(i + 1).last() == self@[i as int]);
            assert(self@.take(i + 1).drop_last() =~= self@.take(i as int));
            if same_text(self.rows[i].0.as_str(), name) {
                return Some(&self.rows[i].1);
            }
        }
        None
    }
}

/// An entry that was just added is found.
pub proof fn lookup_finds_latest<V>(t: Seq<(Seq<char>, V)>, name: Seq<char>, value: V, other: Seq<char>)
    ensures
        lookup(t.push((name, value)), name) == Some(value),
        other != name ==> lookup(t.push((name, value)), other) == lookup(t, other),
{
    assert(t.push((name, value)).drop_last() =~= t);
}

} // verus!
