//! A small table from names to values, kept as a list in which no name stands
//! twice.
use crate::text::same;
use vstd::prelude::*;

verus! {

/// One row of a table.
#[derive(Debug)]
pub struct Entry<T> {
    pub name: Vec<char>,
    pub value: T,
}

/// A table from names to values.
#[derive(Debug)]
pub struct Table<T> {
    entries: Vec<Entry<T>>,
}

/// The position of `name` among `names`.
pub open spec fn slot(names: Seq<Seq<char>>, name: Seq<char>) -> int {
    choose|i: int| 0 <= i < names.len() && names[i] == name
}

/// The mapping that a list of distinct names and their values stand for.
pub open spec fn mapping<T>(names: Seq<Seq<char>>, values: Seq<T>) -> Map<Seq<char>, T> {
    Map::new(|k: Seq<char>| names.contains(k), |k: Seq<char>| values[slot(names, k)])
}

/// In a list without duplicates, the name at a position maps to the value at
/// that position.
pub proof fn lemma_mapping_at<T>(names: Seq<Seq<char>>, values: Seq<T>, i: int)
    requires
        names.no_duplicates(),
        0 <= i < names.len(),
    ensures
        names.contains(names[i]),
        slot(names, names[i]) == i,
        mapping(names, values).contains_key(names[i]),
        mapping(names, values)[names[i]] == values[i],
{
}

impl<T> Table<T> {
    #[verifier::type_invariant]
    spec fn distinct(&self) -> bool {
        self.names().no_duplicates()
    }

    /// The names in the order in which they were first bound.
    pub closed spec fn names(&self) -> Seq<Seq<char>> {
        self.entries@.map_values(|e: Entry<T>| e.name@)
    }

    /// The values, in the order of `names`.
    pub closed spec fn values(&self) -> Seq<T> {
        self.entries@.map_values(|e: Entry<T>| e.value)
    }

    /// The mapping that the table stands for.
    pub open spec fn model(&self) -> Map<Seq<char>, T> {
        mapping(self.names(), self.values())
    }

    /// An empty table.
    pub fn new() -> (t: Self)
        ensures
            t.names() == Seq::<Seq<char>>::empty(),
            t.values() == Seq::<T>::empty(),
            t.model() == Map::<Seq<char>, T>::empty(),
    {
        let t = Table { entries: Vec::new() };
        assert(t.names() =~= Seq::<Seq<char>>::empty());
        assert(t.values() =~= Seq::<T>::empty());
        assert(t.model() =~= Map::<Seq<char>, T>::empty());
        t
    }

    /// The number of names bound; no name stands twice.
    pub fn len(&self) -> (n: usize)
        ensures
            n == self.names().len(),
            n == self.values().len(),
            self.names().no_duplicates(),
    {
        proof {
            use_type_invariant(self);
        }
        self.entries.len()
    }

    /// The name at position `i`.
    pub fn name_at(&self, i: usize) -> (r: &Vec<char>)
        requires
            i < self.names().len(),
        ensures
            r@ == self.names()[i as int],
    {
        &self.entries[i].name
    }

    /// The value at position `i`.
    pub fn value_at(&self, i: usize) -> (r: &T)
        requires
            i < self.names().len(),
        ensures
            *r == self.values()[i as int],
    {
        &self.entries[i].value
    }

    /// The position at which `name` is bound.
    pub fn position(&self, name: &Vec<char>) -> (r: Option<usize>)
        ensures
            match r {
                Some(i) => i < self.names().len() && self.names()[i as int] == name@,
                None => !self.names().contains(name@),
            },
    {
        let mut i: usize = 0;
        while i < self.entries.len()
            invariant
                i <= self.entries.len(),
                forall|j: int| 0 <= j < i ==> self.names()[j] != name@,
            decreases self.entries.len() - i,
        {
            if same(&self.entries[i].name, name) {
                return Some(i);
            }
            i += 1;
        }
        None
    }

    /// The value bound to `name`, if there is one.
    pub fn get(&self, name: &Vec<char>) -> (r: Option<&T>)
        ensures
            match r {
                Some(v) => self.model().contains_key(name@) && *v == self.model()[name@],
                None => !self.model().contains_key(name@),
            },
    {
        proof {
            use_type_invariant(self);
        }
        match self.position(name) {
            Some(i) => {
                proof {
                    lemma_mapping_at(self.names(), self.values(), i as int);
                }
                Some(&self.entries[i].value)
            },
            None => None,
        }
    }

    /// Binds `name` to `value`, in place of what it was bound to before.
    pub fn put(&mut self, name: Vec<char>, value: T)
        ensures
            final(self).model() == old(self).model().insert(name@, value),
            old(self).names().contains(name@) ==> final(self).names() == old(self).names(),
            !old(self).names().contains(name@) ==> final(self).names() == old(self).names().push(
                name@,
            ),
    {
        proof {
            use_type_invariant(&*self);
        }
        let ghost names = self.names();
        let ghost values = self.values();
        let ghost key = name@;
        let found = self.position(&name);
        let mut entries: Vec<Entry<T>> = Vec::new();
        core::mem::swap(&mut self.entries, &mut entries);
        match found {
            Some(i) => {
                entries.set(i, Entry { name, value });
                assert(entries@.map_values(|e: Entry<T>| e.name@) =~= names);
                core::mem::swap(&mut self.entries, &mut entries);
                proof {
                    assert(self.names() =~= names);
                    assert(self.values() =~= values.update(i as int, value));
                    assert forall|k: Seq<char>| names.contains(k) implies #[trigger] mapping(
                        names,
                        self.values(),
                    )[k] == mapping(names, values).insert(key, value)[k] by {
                        let j = slot(names, k);
                        lemma_mapping_at(names, values, i as int);
                    }
                    assert(self.model() =~= mapping(names, values).insert(key, value));
                }
            },
            None => {
                entries.push(Entry { name, value });
                assert(entries@.map_values(|e: Entry<T>| e.name@) =~= names.push(key));
                core::mem::swap(&mut self.entries, &mut entries);
                proof {
                    assert(self.names() =~= names.push(key));
                    assert(self.values() =~= values.push(value));
                    let n = names.len() as int;
                    assert(self.names()[n] == key);
                    assert forall|k: Seq<char>| self.names().contains(k) implies #[trigger] mapping(
                        self.names(),
                        self.values(),
                    )[k] == mapping(names, values).insert(key, value)[k] by {
                        let j = slot(self.names(), k);
                        if k != key {
                            assert(names[j] == k);
                            assert(slot(names, k) == j);
                        }
                    }
                    assert forall|k: Seq<char>|
                        self.names().contains(k) <==> (names.contains(k) || k == key) by {
                        if names.contains(k) {
                            let j = slot(names, k);
                            assert(self.names()[j] == k);
                        }
                    }
                    assert(self.model() =~= mapping(names, values).insert(key, value));
                }
            },
        }
    }
}

} // verus!
