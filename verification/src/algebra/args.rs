//! Bindings of variable names to numbers, as evaluation takes them.

use vstd::prelude::*;
use crate::algebra::assoc::{
    lemma_table_last_match, lemma_table_no_match, lemma_table_push, lookup, table,
};

verus! {

/// A finite map from variable names to binary64 bit patterns.
pub struct Arguments {
    entries: Vec<(String, u64)>,
}

/// The stored pairs with each name taken by its characters.
pub open spec fn named(entries: Seq<(String, u64)>) -> Seq<(Seq<char>, u64)> {
    Seq::new(entries.len(), |i: int| (entries[i].0@, entries[i].1))
}

impl View for Arguments {
    type V = Map<Seq<char>, u64>;

    closed spec fn view(&self) -> Map<Seq<char>, u64> {
        table(named(self.entries@))
    }
}

impl Arguments {
    /// Bindings that hold no variable.
    pub fn new() -> (r: Self)
        ensures
            r@ == Map::<Seq<char>, u64>::empty(),
    {
        let r = Arguments { entries: Vec::new() };
        r
    }

    /// The number bound to `name`, if there is one.
    pub fn get(&self, name: &String) -> (r: Option<u64>)
        ensures
            r == lookup(self@, name@),
    {
        let mut i: usize = self.entries.len();
        while i > 0
            invariant
                i <= self.entries.len(),
                forall|j: int| i <= j < self.entries.len() ==> named(self.entries@)[j].0 != name@,
            decreases i,
        {
            i -= 1;
            if self.entries[i].0 == *name {
                proof {
                    lemma_table_last_match(named(self.entries@), i as int, name@);
                }
                return Some(self.entries[i].1);
            }
        }
        proof {
            lemma_table_no_match(named(self.entries@), name@);
        }
        None
    }

    /// Binds `name` to `value` and returns what it was bound to before.
    pub fn insert(&mut self, name: String, value: u64) -> (r: Option<u64>)
        ensures
            final(self)@ == old(self)@.insert(name@, value),
            r == lookup(old(self)@, name@),
    {
        let before = self.get(&name);
        proof {
            lemma_table_push(named(self.entries@), name@, value);
            assert(named(self.entries@.push((name, value))) =~= named(self.entries@).push(
                (name@, value),
            ));
        }
        self.entries.push((name, value));
        before
    }
}

} // verus!
