//! Tables from text to values.
use crate::assoc::{
    as_map, distinct_keys, lemma_as_map_len, lemma_position_is, lemma_remove_at, lemma_with_member,
    position, with_member,
};
use crate::text::same_text;
use vstd::prelude::*;

verus! {

/// A table, in which each key occurs once.
#[derive(Debug)]
pub struct Table<V> {
    entries: Vec<(String, V)>,
}

impl<V> Table<V> {
    /// The entries as pairs of key and value.
    pub closed spec fn pairs(self) -> Seq<(Seq<char>, V)> {
        Seq::new(self.entries@.len(), |i: int| (self.entries@[i].0@, self.entries@[i].1))
    }

    /// No key occurs twice.
    pub open spec fn well_formed(self) -> bool {
        distinct_keys(self.pairs())
    }

    /// An empty table.
    pub fn new() -> (table: Table<V>)
        ensures
            table.well_formed(),
            table.pairs().len() == 0,
            table@ == Map::<Seq<char>, V>::empty(),
    {
        let table = Table { entries: Vec::new() };
        proof {
            assert(table@ =~= Map::<Seq<char>, V>::empty());
        }
        table
    }

    /// The number of entries.
    pub fn len(&self) -> (n: usize)
        requires
            self.well_formed(),
        ensures
            n == self.pairs().len(),
            n == self@.len(),
            self@.dom().finite(),
    {
        proof {
            lemma_as_map_len(self.pairs());
        }
        self.entries.len()
    }

    /// The `i`-th value.
    pub fn value_at(&self, i: usize) -> (value: &V)
        requires
            i < self.pairs().len(),
        ensures
            *value == self.pairs()[i as int].1,
    {
        &self.entries[i].1
    }

    /// The `i`-th value, to be changed.
    pub fn value_mut(&mut self, i: usize) -> (value: &mut V)
        requires
            i < old(self).pairs().len(),
        ensures
            *value == old(self).pairs()[i as int].1,
            final(self).pairs() == old(self).pairs().update(
                i as int,
                (old(self).pairs()[i as int].0, *final(value)),
            ),
    {
        &mut self.entries[i].1
    }

    /// The index of `key`, or the number of entries.
    pub fn find(&self, key: &str) -> (i: usize)
        ensures
            i == position(self.pairs(), key@),
            i <= self.pairs().len(),
            i < self.pairs().len() ==> self.pairs()[i as int].0 == key@,
            i < self.pairs().len() <==> self@.contains_key(key@),
            i < self.pairs().len() ==> self.pairs()[i as int].1 == self@[key@],
    {
        let mut i: usize = 0;
        while i < self.entries.len() && !same_text(self.entries[i].0.as_str(), key)
            invariant
                i <= self.entries@.len(),
                forall|j: int| 0 <= j < i ==> self.pairs()[j].0 != key@,
            decreases self.entries@.len() - i,
        {
            i = i + 1;
        }
        proof {
            lemma_position_is(self.pairs(), key@, i as int);
        }
        i
    }

    /// The value of `key`.
    pub fn get(&self, key: &str) -> (value: Option<&V>)
        ensures
            value is Some == self@.contains_key(key@),
            value matches Some(v) ==> *v == self@[key@],
    {
        let i = self.find(key);
        if i < self.entries.len() {
            Some(&self.entries[i].1)
        } else {
            None
        }
    }

    /// Lets `key` stand for `value`.
    pub fn set(&mut self, key: &str, value: V)
        requires
            old(self).well_formed(),
        ensures
            final(self).well_formed(),
            final(self).pairs() == with_member(old(self).pairs(), key@, value),
            final(self)@ == old(self)@.insert(key@, value),
    {
        let i = self.find(key);
        proof {
            lemma_with_member(self.pairs(), key@, value);
        }
        if i < self.entries.len() {
            self.entries.set(i, (key.to_owned(), value));
        } else {
            self.entries.push((key.to_owned(), value));
        }
        proof {
            assert(self.pairs() =~= with_member(old(self).pairs(), key@, value));
        }
    }

    /// Takes the `i`-th entry out.
    pub fn remove_at(&mut self, i: usize)
        requires
            old(self).well_formed(),
            i < old(self).pairs().len(),
        ensures
            final(self).well_formed(),
            final(self).pairs() == old(self).pairs().remove(i as int),
            final(self)@ == old(self)@.remove(old(self).pairs()[i as int].0),
    {
        proof {
            lemma_remove_at(self.pairs(), i as int);
        }
        let _ = self.entries.remove(i);
        proof {
            assert(self.pairs() =~= old(self).pairs().remove(i as int));
        }
    }
}

impl<V> View for Table<V> {
    type V = Map<Seq<char>, V>;

    open spec fn view(&self) -> Map<Seq<char>, V> {
        as_map(self.pairs())
    }
}

} // verus!
