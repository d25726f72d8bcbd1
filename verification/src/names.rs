//! Values under names.

use crate::text::str_eq;
use vstd::prelude::*;

verus! {

/// A small map from names to values, in the order of first insertion.
#[derive(Clone, Debug, PartialEq, Eq)]
pub struct NameMap<V> {
    entries: Vec<(String, V)>,
}

spec fn holds<V>(entries: Seq<(String, V)>, name: Seq<char>, i: int) -> bool {
    0 <= i < entries.len() && entries[i].0@ == name
}

spec fn slot<V>(entries: Seq<(String, V)>, name: Seq<char>) -> int {
    choose|i: int| holds(entries, name, i)
}

spec fn as_map<V>(entries: Seq<(String, V)>) -> Map<Seq<char>, V> {
    Map::new(
        |n: Seq<char>| exists|i: int| holds(entries, n, i),
        |n: Seq<char>| entries[slot(entries, n)].1,
    )
}

impl<V> View for NameMap<V> {
    type V = Map<Seq<char>, V>;

    closed spec fn view(&self) -> Map<Seq<char>, V> {
        as_map(self.entries@)
    }
}

impl<V> NameMap<V> {
    /// The names, in the order of first insertion.
    pub closed spec fn names(&self) -> Seq<Seq<char>> {
        self.entries@.map_values(|e: (String, V)| e.0@)
    }

    /// No name occurs twice, and the names are the keys of the map.
    pub open spec fn wf(&self) -> bool {
        &&& self.names().no_duplicates()
        &&& forall|n: Seq<char>| self@.contains_key(n) <==> #[trigger] self.names().contains(n)
    }

    proof fn lemma_slots(&self)
        requires
            self.names().no_duplicates(),
        ensures
            forall|n: Seq<char>| self@.contains_key(n) <==> #[trigger] self.names().contains(n),
            forall|i: int|
                0 <= i < self.names().len() ==> self@.contains_key(#[trigger] self.names()[i])
                    && self@[self.names()[i]] == self.entries@[i].1,
    {
        let names = self.names();
        assert(names.len() == self.entries@.len());
        assert forall|n: Seq<char>| self@.contains_key(n) <==> #[trigger] names.contains(n) by {
            if self@.contains_key(n) {
                let i = choose|i: int| holds(self.entries@, n, i);
                assert(names[i] == n);
            }
            if names.contains(n) {
                let i = choose|i: int| 0 <= i < names.len() && names[i] == n;
                assert(holds(self.entries@, n, i));
            }
        }
        assert forall|i: int| 0 <= i < names.len() implies self@.contains_key(
            #[trigger] names[i],
        ) && self@[names[i]] == self.entries@[i].1 by {
            assert(holds(self.entries@, names[i], i));
            let j = slot(self.entries@, names[i]);
            assert(holds(self.entries@, names[i], j));
            assert(names[j] == names[i]);
        }
    }

    pub fn new() -> (m: NameMap<V>)
        ensures
            m.wf(),
            m@ == Map::<Seq<char>, V>::empty(),
            m.names() == Seq::<Seq<char>>::empty(),
    {
        let m = NameMap { entries: Vec::new() };
        proof {
            m.lemma_slots();
            assert(m.names() =~= Seq::<Seq<char>>::empty());
            assert(m@ =~= Map::<Seq<char>, V>::empty());
        }
        m
    }

    /// Number of names.
    pub fn len(&self) -> (n: usize)
        ensures
            n == self.names().len(),
    {
        self.entries.len()
    }

    /// Where `name` stands among the names.
    pub fn position(&self, name: &str) -> (r: Option<usize>)
        requires
            self.wf(),
        ensures
            r is Some <==> self@.contains_key(name@),
            r matches Some(i) ==> i < self.names().len() && self.names()[i as int] == name@,
    {
        let mut i: usize = 0;
        while i < self.entries.len()
            invariant
                i <= self.entries.len(),
                self.wf(),
                forall|k: int| 0 <= k < i ==> (#[trigger] self.names()[k]) != name@,
            decreases self.entries.len() - i,
        {
            proof {
                self.lemma_slots();
            }
            if str_eq(self.entries[i].0.as_str(), name) {
                assert(self.names()[i as int] == name@);
                return Some(i);
            }
            assert(self.names()[i as int] != name@);
            i += 1;
        }
        assert(self.names().len() == self.entries@.len());
        assert(!self.names().contains(name@));
        None
    }

    pub fn contains(&self, name: &str) -> (r: bool)
        requires
            self.wf(),
        ensures
            r == self@.contains_key(name@),
    {
        self.position(name).is_some()
    }

    /// The value at a place among the names.
    pub fn value_at(&self, i: usize) -> (v: &V)
        requires
            self.wf(),
            i < self.names().len(),
        ensures
            self@.contains_key(self.names()[i as int]),
            *v == self@[self.names()[i as int]],
    {
        proof {
            self.lemma_slots();
        }
        &self.entries[i].1
    }

    pub fn get(&self, name: &str) -> (r: Option<&V>)
        requires
            self.wf(),
        ensures
            match r {
                Some(v) => self@.contains_key(name@) && *v == self@[name@],
                None => !self@.contains_key(name@),
            },
    {
        match self.position(name) {
            Some(i) => Some(self.value_at(i)),
            None => None,
        }
    }

    /// The value at a place among the names, to be changed in place.
    pub fn at_mut(&mut self, i: usize) -> (v: &mut V)
        requires
            old(self).wf(),
            i < old(self).names().len(),
        ensures
            old(self)@.contains_key(old(self).names()[i as int]),
            *v == old(self)@[old(self).names()[i as int]],
            final(self).wf(),
            final(self).names() == old(self).names(),
            final(self)@ == old(self)@.insert(old(self).names()[i as int], *final(v)),
    {
        proof {
            self.lemma_slots();
            self.lemma_updates(i as int);
        }
        &mut self.entries[i].1
    }

    proof fn lemma_updates(&self, i: int)
        requires
            self.wf(),
            0 <= i < self.names().len(),
        ensures
            forall|m: NameMap<V>, v: V|
                m.entries@ == #[trigger] self.entries@.update(i, (self.entries@[i].0, v))
                    ==> #[trigger] m.wf() && m.names() == self.names() && m@ == self@.insert(
                    self.names()[i],
                    v,
                ),
    {
        assert forall|m: NameMap<V>, v: V|
            m.entries@ == #[trigger] self.entries@.update(
                i,
                (self.entries@[i].0, v),
            ) implies #[trigger] m.wf() && m.names() == self.names() && m@ == self@.insert(
            self.names()[i],
            v,
        ) by {
            assert(m.names() =~= self.names());
            m.lemma_slots();
            self.lemma_slots();
            let changed = self@.insert(self.names()[i], v);
            assert(self.names().contains(self.names()[i]));
            assert forall|n: Seq<char>| m@.contains_key(n) == changed.contains_key(n) by {
                assert(m@.contains_key(n) <==> m.names().contains(n));
                assert(self@.contains_key(n) <==> self.names().contains(n));
            }
            assert forall|n: Seq<char>| m@.contains_key(n) implies m@[n] == changed[n] by {
                assert(m.names().contains(n));
                let k = choose|k: int| 0 <= k < m.names().len() && m.names()[k] == n;
                assert(m@[m.names()[k]] == m.entries@[k].1);
                assert(self@[self.names()[k]] == self.entries@[k].1);
            }
            assert(m@ =~= changed);
        }
    }

    /// Put `value` under `name`, in place of any value there.
    pub fn insert(&mut self, name: &str, value: V)
        requires
            old(self).wf(),
        ensures
            final(self).wf(),
            final(self)@ == old(self)@.insert(name@, value),
            final(self).names() == if old(self)@.contains_key(name@) {
                old(self).names()
            } else {
                old(self).names().push(name@)
            },
    {
        match self.position(name) {
            Some(i) => {
                *self.at_mut(i) = value;
            },
            None => {
                proof {
                    self.lemma_slots();
                }
                self.entries.push((name.to_owned(), value));
                proof {
                    assert(self.names() =~= old(self).names().push(name@));
                    assert(self.names().no_duplicates()) by {
                        assert(!old(self).names().contains(name@));
                    }
                    self.lemma_slots();
                    assert(self@ =~= old(self)@.insert(name@, value)) by {
                        assert forall|n: Seq<char>|
                            self@.contains_key(n) == old(self)@.insert(name@, value).contains_key(
                                n,
                            ) by {
                            if self@.contains_key(n) {
                                assert(self.names().contains(n));
                                let k = choose|k: int|
                                    0 <= k < self.names().len() && self.names()[k] == n;
                                if k < old(self).names().len() {
                                    assert(old(self).names()[k] == n);
                                    assert(old(self).names().contains(n));
                                }
                            }
                            if old(self)@.contains_key(n) {
                                assert(old(self).names().contains(n));
                                let k = choose|k: int|
                                    0 <= k < old(self).names().len() && old(self).names()[k] == n;
                                assert(self.names()[k] == n);
                                assert(self.names().contains(n));
                            }
                            if n == name@ {
                                assert(self.names()[old(self).names().len() as int] == n);
                                assert(self.names().contains(n));
                            }
                        }
                        assert forall|n: Seq<char>| self@.contains_key(n) implies self@[n]
                            == old(self)@.insert(name@, value)[n] by {
                            assert(self.names().contains(n));
                            let k = choose|k: int|
                                0 <= k < self.names().len() && self.names()[k] == n;
                            assert(self@[self.names()[k]] == self.entries@[k].1);
                            if k < old(self).names().len() {
                                assert(old(self).names()[k] == n);
                                assert(old(self)@[old(self).names()[k]] == old(self).entries@[k].1);
                                assert(old(self).names().contains(n));
                            }
                        }
                    }
                }
            },
        }
    }
}

} // verus!
