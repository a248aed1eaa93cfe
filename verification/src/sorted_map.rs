//! A map from names to values that keeps its entries in the order of the names.

use crate::names::{
    ascending, in_order, lemma_ascending_no_duplicates, lemma_in_order, lemma_name_lt_irreflexive,
    lemma_name_lt_total, lemma_name_lt_transitive, name_lt, names_of, str_lt,
};
use vstd::prelude::*;

verus! {

/// A map keyed by name. Its view is the map from each name to the view of the
/// value stored under it.
#[derive(Debug, PartialEq)]
pub struct SortedMap<V> {
    entries: Vec<(String, V)>,
}

impl<V: View> View for SortedMap<V> {
    type V = Map<Seq<char>, V::V>;

    closed spec fn view(&self) -> Map<Seq<char>, V::V> {
        Map::new(
            |k: Seq<char>| self.names().contains(k),
            |k: Seq<char>| self.entries@[self.names().index_of(k)].1@,
        )
    }
}

impl<V> SortedMap<V> {
    /// The names of the entries, in storage order.
    closed spec fn names(self) -> Seq<Seq<char>> {
        Seq::new(self.entries@.len(), |i: int| self.entries@[i].0@)
    }

    /// The entries are stored in ascending order of their names, so no name
    /// occurs twice.
    #[verifier::type_invariant]
    closed spec fn ordered(self) -> bool {
        ascending(self.names())
    }
}

impl<V: View> SortedMap<V> {
    /// A map holds finitely many names.
    pub proof fn lemma_finite(self)
        ensures
            self@.dom().finite(),
    {
        assert(self@.dom() =~= self.names().to_set());
    }

    proof fn lemma_entry(self, i: int)
        requires
            self.ordered(),
            0 <= i < self.entries@.len(),
        ensures
            self@.contains_key(self.entries@[i].0@),
            self@[self.entries@[i].0@] == self.entries@[i].1@,
    {
        let names = self.names();
        lemma_ascending_no_duplicates(names);
        assert(names[i] == self.entries@[i].0@);
        let j = names.index_of(names[i]);
        assert(names[j] == names[i]);
    }

    proof fn lemma_names_in_order(self)
        requires
            self.ordered(),
        ensures
            self.names() == in_order(self@.dom()),
            self.names().len() == self@.dom().len(),
    {
        assert(self@.dom() =~= self.names().to_set());
        lemma_in_order(self.names());
        lemma_ascending_no_duplicates(self.names());
        self.names().unique_seq_to_set();
    }

    /// A map without entries.
    pub fn new() -> (r: Self)
        ensures
            r@ == Map::<Seq<char>, V::V>::empty(),
    {
        let r = SortedMap { entries: Vec::new() };
        assert(r@ =~= Map::<Seq<char>, V::V>::empty());
        r
    }

    /// The number of entries.
    pub fn len(&self) -> (r: usize)
        ensures
            r == self@.dom().len(),
            self@.dom().finite(),
    {
        proof {
            use_type_invariant(self);
            self.lemma_names_in_order();
            self.lemma_finite();
        }
        self.entries.len()
    }

    /// Where `key` stands, or would stand, among the entries, and whether it
    /// is there.
    fn position(&self, key: &str) -> (r: (usize, bool))
        ensures
            r.0 <= self.entries@.len(),
            forall|i: int| 0 <= i < r.0 ==> name_lt(#[trigger] self.names()[i], key@),
            r.1 ==> r.0 < self.entries@.len() && self.names()[r.0 as int] == key@,
            !r.1 ==> r.0 == self.entries@.len() || name_lt(key@, self.names()[r.0 as int]),
            r.1 == self@.contains_key(key@),
    {
        proof {
            use_type_invariant(self);
        }
        let mut at: usize = 0;
        while at < self.entries.len() && str_lt(self.entries[at].0.as_str(), key)
            invariant
                at <= self.entries@.len(),
                forall|i: int| 0 <= i < at ==> name_lt(#[trigger] self.names()[i], key@),
            decreases self.entries@.len() - at,
        {
            at = at + 1;
        }
        let found = at < self.entries.len() && !str_lt(key, self.entries[at].0.as_str());
        proof {
            let names = self.names();
            if at < self.entries@.len() {
                lemma_name_lt_total(names[at as int], key@);
            }
            if found {
                self.lemma_entry(at as int);
            } else {
                assert forall|j: int| 0 <= j < names.len() implies names[j] != key@ by {
                    lemma_name_lt_irreflexive(key@);
                    if j > at {
                        lemma_name_lt_transitive(key@, names[at as int], names[j]);
                    }
                }
            }
        }
        (at, found)
    }

    /// The value stored under `key`, if there is one.
    pub fn get(&self, key: &str) -> (r: Option<&V>)
        ensures
            match r {
                Some(v) => self@.contains_key(key@) && v@ == self@[key@],
                None => !self@.contains_key(key@),
            },
    {
        proof {
            use_type_invariant(self);
        }
        let (at, found) = self.position(key);
        if found {
            proof {
                self.lemma_entry(at as int);
            }
            Some(&self.entries[at].1)
        } else {
            None
        }
    }

    /// Whether a value is stored under `key`.
    pub fn contains_key(&self, key: &str) -> (r: bool)
        ensures
            r == self@.contains_key(key@),
    {
        let (_, found) = self.position(key);
        found
    }

    /// The names of the entries, in ascending order.
    pub fn keys(&self) -> (r: Vec<String>)
        ensures
            names_of(r@) == in_order(self@.dom()),
            names_of(r@).to_set() == self@.dom(),
            ascending(names_of(r@)),
            r@.len() == self@.dom().len(),
            self@.dom().finite(),
    {
        proof {
            use_type_invariant(self);
            self.lemma_names_in_order();
            self.lemma_finite();
        }
        let mut names: Vec<String> = Vec::new();
        let mut at: usize = 0;
        while at < self.entries.len()
            invariant
                at <= self.entries@.len(),
                names@.len() == at,
                forall|i: int| 0 <= i < at ==> (#[trigger] names@[i])@ == self.entries@[i].0@,
            decreases self.entries@.len() - at,
        {
            names.push(self.entries[at].0.clone());
            at = at + 1;
        }
        assert(names_of(names@) =~= self.names());
        assert(self@.dom() =~= self.names().to_set());
        names
    }

    /// Putting an entry where its name stands, in place of the entry of that
    /// name if there is one, keeps the order and stores the entry's value
    /// under its name.
    proof fn lemma_put(self, after: Self, at: int, found: bool, entry: (String, V))
        requires
            self.ordered(),
            0 <= at <= self.entries@.len(),
            forall|i: int| 0 <= i < at ==> name_lt(#[trigger] self.names()[i], entry.0@),
            found ==> at < self.entries@.len() && self.names()[at] == entry.0@,
            !found ==> at == self.entries@.len() || name_lt(entry.0@, self.names()[at]),
            after.entries@ == if found {
                self.entries@.update(at, entry)
            } else {
                self.entries@.insert(at, entry)
            },
        ensures
            after.ordered(),
            after@ == self@.insert(entry.0@, entry.1@),
    {
        let name = entry.0@;
        let old_names = self.names();
        let new_names = after.names();
        // Where the new entry does not stand, an entry of `after` is the
        // entry of `self` at `before(i)`.
        let before = |i: int| if found || i < at { i } else { i - 1 };
        assert forall|i: int| 0 <= i < new_names.len() && i != at implies new_names[i]
            == old_names[before(i)] && after.entries@[i] == self.entries@[before(i)] by {}
        assert forall|i: int, j: int| 0 <= i < j < new_names.len() implies name_lt(
            new_names[i],
            new_names[j],
        ) by {
            if i == at {
                if found || j - 1 == at {
                    assert(name_lt(old_names[at], old_names[before(j)]) || before(j) == at);
                } else {
                    lemma_name_lt_transitive(name, old_names[at], old_names[j - 1]);
                }
            } else if j == at {
                assert(name_lt(old_names[i], name));
            } else if i < at && at < j && !found {
                if j - 1 > at {
                    lemma_name_lt_transitive(name, old_names[at], old_names[j - 1]);
                }
                lemma_name_lt_transitive(old_names[i], name, new_names[j]);
            } else {
                assert(name_lt(old_names[before(i)], old_names[before(j)]));
            }
        }
        lemma_ascending_no_duplicates(new_names);
        assert forall|k: Seq<char>| #[trigger]
            after@.contains_key(k) == self@.insert(name, entry.1@).contains_key(k) by {
            if after@.contains_key(k) {
                let i = choose|i: int| 0 <= i < new_names.len() && new_names[i] == k;
                if i != at {
                    assert(old_names[before(i)] == k);
                }
            }
            if k == name {
                assert(new_names[at] == k);
            } else if self@.contains_key(k) {
                let o = choose|o: int| 0 <= o < old_names.len() && old_names[o] == k;
                let i = if found || o < at { o } else { o + 1 };
                assert(new_names[i] == k);
            }
        }
        assert forall|k: Seq<char>| #[trigger] after@.contains_key(k) implies after@[k]
            == self@.insert(name, entry.1@)[k] by {
            let i = choose|i: int| 0 <= i < new_names.len() && new_names[i] == k;
            after.lemma_entry(i);
            if i != at {
                self.lemma_entry(before(i));
                assert(new_names[i] != new_names[at]);
            }
        }
        assert(after@ =~= self@.insert(name, entry.1@));
    }

    /// Stores `value` under `key`, in place of what was stored there, which
    /// is returned.
    pub fn insert(&mut self, key: String, value: V) -> (r: Option<V>)
        ensures
            final(self)@ == old(self)@.insert(key@, value@),
            match r {
                Some(v) => old(self)@.contains_key(key@) && v@ == old(self)@[key@],
                None => !old(self)@.contains_key(key@),
            },
    {
        proof {
            use_type_invariant(&*self);
        }
        let ghost before = *self;
        let (at, found) = self.position(key.as_str());
        let mut taken = SortedMap { entries: Vec::new() };
        std::mem::swap(self, &mut taken);
        let SortedMap { entries: mut entries } = taken;
        let ghost entry = (key, value);
        let previous = if found {
            proof {
                before.lemma_entry(at as int);
            }
            let (_, v) = entries.remove(at);
            Some(v)
        } else {
            None
        };
        entries.insert(at, (key, value));
        proof {
            if found {
                assert(entries@ =~= before.entries@.update(at as int, entry));
            }
            before.lemma_put(SortedMap { entries }, at as int, found, entry);
        }
        *self = SortedMap { entries };
        previous
    }
}

} // verus!
