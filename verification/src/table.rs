//! A name-keyed table that keeps its names in the order of first insertion.

use vstd::prelude::*;

verus! {

/// A finite map from names to values.
///
/// No name occurs twice. Inserting under a name that is already present
/// replaces the value and leaves the name where it stood, so walking the
/// table by index always visits the names in the order of first insertion.
#[derive(Debug)]
pub struct Table<V> {
    entries: Vec<(String, V)>,
}

spec fn entry_names<V>(entries: Seq<(String, V)>) -> Seq<Seq<char>> {
    Seq::new(entries.len(), |i: int| entries[i].0@)
}

impl<V> Table<V> {
    /// The names of the table, in the order of first insertion.
    pub closed spec fn names(&self) -> Seq<Seq<char>> {
        entry_names(self.entries@)
    }

    #[verifier::type_invariant]
    spec fn names_are_distinct(&self) -> bool {
        self.names().no_duplicates()
    }
}

impl<V: View> View for Table<V> {
    type V = Map<Seq<char>, V::V>;

    closed spec fn view(&self) -> Map<Seq<char>, V::V> {
        Map::new(
            |name: Seq<char>| self.names().contains(name),
            |name: Seq<char>| self.entries@[self.names().index_of(name)].1@,
        )
    }
}

impl<V: View> Table<V> {
    /// The domain of the map is the set of the names, and so it is finite.
    pub proof fn lemma_domain(&self)
        ensures
            self@.dom() =~= self.names().to_set(),
            self@.dom().finite(),
            forall|name: Seq<char>| self@.contains_key(name) <==> self.names().contains(name),
    {
        vstd::seq_lib::seq_to_set_is_finite(self.names());
    }

    proof fn lemma_entry(&self, i: int)
        requires
            self.names().no_duplicates(),
            0 <= i < self.names().len(),
        ensures
            self@.contains_key(self.names()[i]),
            self@[self.names()[i]] == self.entries@[i].1@,
    {
        let name = self.names()[i];
        assert(self.names().contains(name));
        let j = self.names().index_of(name);
        assert(self.names()[j] == name);
    }

    /// An empty table.
    pub fn new() -> (table: Self)
        ensures
            table@ == Map::<Seq<char>, V::V>::empty(),
            table.names() == Seq::<Seq<char>>::empty(),
    {
        let table = Table { entries: Vec::new() };
        assert(table.names() =~= Seq::<Seq<char>>::empty());
        assert(table@ =~= Map::<Seq<char>, V::V>::empty());
        table
    }

    /// The number of names.
    pub fn len(&self) -> (n: usize)
        ensures
            n == self.names().len(),
            self.names().no_duplicates(),
    {
        proof {
            use_type_invariant(self);
        }
        self.entries.len()
    }

    /// The name at position `i`.
    pub fn name(&self, i: usize) -> (name: &String)
        requires
            i < self.names().len(),
        ensures
            name@ == self.names()[i as int],
    {
        &self.entries[i].0
    }

    /// The value stored under the name at position `i`.
    pub fn value(&self, i: usize) -> (value: &V)
        requires
            i < self.names().len(),
        ensures
            self@.contains_key(self.names()[i as int]),
            value@ == self@[self.names()[i as int]],
    {
        proof {
            use_type_invariant(self);
            self.lemma_entry(i as int);
        }
        &self.entries[i].1
    }

    fn position(&self, name: &String) -> (found: Option<usize>)
        ensures
            match found {
                Some(i) => i < self.names().len() && self.names()[i as int] == name@,
                None => !self.names().contains(name@),
            },
    {
        let mut i: usize = 0;
        while i < self.entries.len()
            invariant
                i <= self.entries.len(),
                self.entries@.len() == self.names().len(),
                forall|j: int| 0 <= j < i ==> self.names()[j] != name@,
            decreases self.entries.len() - i,
        {
            if self.entries[i].0 == *name {
                return Some(i);
            }
            i += 1;
        }
        None
    }

    /// Whether `name` is in the table.
    pub fn contains(&self, name: &String) -> (present: bool)
        ensures
            present == self@.contains_key(name@),
    {
        self.position(name).is_some()
    }

    /// The value stored under `name`, if there is one.
    pub fn get(&self, name: &String) -> (found: Option<&V>)
        ensures
            match found {
                Some(value) => self@.contains_key(name@) && value@ == self@[name@],
                None => !self@.contains_key(name@),
            },
    {
        match self.position(name) {
            Some(i) => {
                proof {
                    use_type_invariant(self);
                    self.lemma_entry(i as int);
                }
                Some(&self.entries[i].1)
            },
            None => None,
        }
    }

    /// Stores `value` under `name`, replacing the value that was there.
    pub fn insert(&mut self, name: String, value: V)
        ensures
            final(self)@ == old(self)@.insert(name@, value@),
            final(self).names() == if old(self)@.contains_key(name@) {
                old(self).names()
            } else {
                old(self).names().push(name@)
            },
    {
        proof {
            use_type_invariant(&*self);
        }
        let found = self.position(&name);
        let ghost before = *self;
        let mut entries: Vec<(String, V)> = Vec::new();
        std::mem::swap(&mut entries, &mut self.entries);
        match found {
            Some(i) => {
                entries.set(i, (name, value));
            },
            None => {
                entries.push((name, value));
            },
        }
        proof {
            before.lemma_domain();
            assert(entry_names(entries@) =~= if before@.contains_key(name@) {
                before.names()
            } else {
                before.names().push(name@)
            });
        }
        self.entries = entries;
        proof {
            assert(self@ =~= before@.insert(name@, value@)) by {
                self.lemma_domain();
                assert forall|n: Seq<char>| self@.contains_key(n) implies #[trigger] self@[n]
                    == before@.insert(name@, value@)[n] by {
                    let j = self.names().index_of(n);
                    assert(self.names()[j] == n);
                    self.lemma_entry(j);
                    if n != name@ {
                        before.lemma_entry(j);
                    }
                }
                assert forall|n: Seq<char>| before@.insert(name@, value@).contains_key(n)
                    implies self@.contains_key(n) by {
                    if n != name@ {
                        let j = before.names().index_of(n);
                        assert(before.names()[j] == n);
                        assert(self.names()[j] == n);
                    } else if before@.contains_key(name@) {
                        let j = before.names().index_of(n);
                        assert(before.names()[j] == n);
                        assert(self.names()[j] == n);
                    } else {
                        assert(self.names()[before.names().len() as int] == n);
                    }
                }
            }
        }
    }
}

impl Clone for Table<String> {
    fn clone(&self) -> (copy: Table<String>)
        ensures
            copy@ == self@,
            copy.names() == self.names(),
    {
        let mut copy: Table<String> = Table::new();
        let n = self.len();
        let mut i: usize = 0;
        while i < n
            invariant
                i <= n,
                n == self.names().len(),
                self.names().no_duplicates(),
                copy.names() == self.names().take(i as int),
                forall|name: Seq<char>| #[trigger]
                    copy@.contains_key(name) ==> self@.contains_key(name) && copy@[name]
                        == self@[name],
            decreases n - i,
        {
            proof {
                copy.lemma_domain();
                assert(self.names().take(i as int + 1) =~= self.names().take(i as int).push(
                    self.names()[i as int],
                ));
            }
            let name = self.name(i).clone();
            let value = self.value(i).clone();
            copy.insert(name, value);
            i += 1;
        }
        proof {
            assert(self.names().take(n as int) =~= self.names());
            copy.lemma_domain();
            self.lemma_domain();
            assert(copy@ =~= self@);
        }
        copy
    }
}

} // verus!
