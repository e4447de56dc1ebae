//! What a render reads: the variables, the environment, the include files,
//! and the counters of the cycle directives.
use crate::table::{lemma_mapping_at, Table};
use crate::text::{chars_of, string_of};
use vstd::prelude::*;

verus! {

/// A read-only mapping from names to texts.
#[derive(Debug)]
pub struct Variables {
    table: Table<Vec<char>>,
}

impl View for Variables {
    type V = Map<Seq<char>, Seq<char>>;

    closed spec fn view(&self) -> Map<Seq<char>, Seq<char>> {
        Map::new(
            |k: Seq<char>| self.table.model().contains_key(k),
            |k: Seq<char>| self.table.model()[k]@,
        )
    }
}

impl Variables {
    /// The names that are bound, each once, in the order in which they were
    /// first bound.
    pub closed spec fn names(&self) -> Seq<Seq<char>> {
        self.table.names()
    }

    /// No variables.
    pub fn new() -> (v: Self)
        ensures
            v@ == Map::<Seq<char>, Seq<char>>::empty(),
            v.names() == Seq::<Seq<char>>::empty(),
    {
        let v = Variables { table: Table::new() };
        assert(v@ =~= Map::<Seq<char>, Seq<char>>::empty());
        v
    }

    /// Binds `name` to `value`.
    pub fn set(&mut self, name: Vec<char>, value: Vec<char>)
        ensures
            final(self)@ == old(self)@.insert(name@, value@),
    {
        self.table.put(name, value);
        assert(self@ =~= old(self)@.insert(name@, value@));
    }

    /// Binds `name` to `value`.
    pub fn insert(&mut self, name: &str, value: &str)
        ensures
            final(self)@ == old(self)@.insert(name@, value@),
    {
        self.set(chars_of(name), chars_of(value));
    }

    /// The value bound to `name`.
    pub fn get(&self, name: &Vec<char>) -> (r: Option<&Vec<char>>)
        ensures
            match r {
                Some(v) => self@.contains_key(name@) && v@ == self@[name@],
                None => !self@.contains_key(name@),
            },
    {
        self.table.get(name)
    }

    /// The value bound to `name`.
    pub fn lookup(&self, name: &str) -> (r: Option<String>)
        ensures
            match r {
                Some(v) => self@.contains_key(name@) && v@ == self@[name@],
                None => !self@.contains_key(name@),
            },
    {
        let key = chars_of(name);
        match self.get(&key) {
            Some(v) => Some(string_of(v)),
            None => None,
        }
    }

    /// The number of names bound. Each bound name stands in `names` once,
    /// and nothing else does.
    pub fn len(&self) -> (n: usize)
        ensures
            n == self@.dom().len(),
            self@.dom().finite(),
            n == self.names().len(),
            self.names().no_duplicates(),
            forall|k: Seq<char>| self@.contains_key(k) <==> self.names().contains(k),
    {
        let n = self.table.len();
        proof {
            self.names().unique_seq_to_set();
            vstd::seq_lib::seq_to_set_is_finite(self.names());
            assert(self@.dom() =~= self.names().to_set());
        }
        n
    }

    /// The name at position `i` of `names`.
    pub fn name_at(&self, i: usize) -> (r: &Vec<char>)
        requires
            i < self.names().len(),
        ensures
            r@ == self.names()[i as int],
    {
        self.table.name_at(i)
    }

    /// The value of the name at position `i` of `names`.
    pub fn value_at(&self, i: usize) -> (r: &Vec<char>)
        requires
            i < self.names().len(),
        ensures
            self@.contains_key(self.names()[i as int]),
            r@ == self@[self.names()[i as int]],
    {
        let n = self.table.len();
        proof {
            lemma_mapping_at(self.table.names(), self.table.values(), i as int);
        }
        self.table.value_at(i)
    }

    /// The variables that a list of pairs binds, a later pair in place of an
    /// earlier one of the same name.
    pub fn from_pairs(pairs: &Vec<(String, String)>) -> (v: Self)
        ensures
            v@ == bindings(pairs@),
    {
        let mut v = Variables::new();
        let mut i: usize = 0;
        while i < pairs.len()
            invariant
                i <= pairs.len(),
                v@ == bindings(pairs@.take(i as int)),
            decreases pairs.len() - i,
        {
            assert(pairs@.take(i + 1).drop_last() =~= pairs@.take(i as int));
            v.insert(pairs[i].0.as_str(), pairs[i].1.as_str());
            i += 1;
        }
        assert(pairs@.take(pairs.len() as int) =~= pairs@);
        v
    }
}

/// The mapping that a list of pairs stands for: a later pair replaces an
/// earlier one of the same name.
pub open spec fn bindings(pairs: Seq<(String, String)>) -> Map<Seq<char>, Seq<char>>
    decreases pairs.len(),
{
    if pairs.len() == 0 {
        Map::empty()
    } else {
        bindings(pairs.drop_last()).insert(pairs.last().0@, pairs.last().1@)
    }
}

/// What is known of the include files: for each path that was tried, its
/// content, or that it could not be read.
#[derive(Debug)]
pub struct Files {
    table: Table<Option<Vec<char>>>,
}

/// The text that an optional vector holds.
pub open spec fn option_view(content: Option<Vec<char>>) -> Option<Seq<char>> {
    match content {
        Some(c) => Some(c@),
        None => None,
    }
}

impl View for Files {
    type V = Map<Seq<char>, Option<Seq<char>>>;

    closed spec fn view(&self) -> Map<Seq<char>, Option<Seq<char>>> {
        Map::new(
            |k: Seq<char>| self.table.model().contains_key(k),
            |k: Seq<char>| option_view(self.table.model()[k]),
        )
    }
}

impl Files {
    /// Nothing known.
    pub fn new() -> (f: Self)
        ensures
            f@ == Map::<Seq<char>, Option<Seq<char>>>::empty(),
    {
        let f = Files { table: Table::new() };
        assert(f@ =~= Map::<Seq<char>, Option<Seq<char>>>::empty());
        f
    }

    /// Records what reading `path` gave: its content, or `None` where it
    /// could not be read.
    pub fn record(&mut self, path: Vec<char>, content: Option<Vec<char>>)
        ensures
            final(self)@ == old(self)@.insert(path@, option_view(content)),
    {
        self.table.put(path, content);
        assert(self@ =~= old(self)@.insert(path@, option_view(content)));
    }

    /// What is known of `path`.
    pub fn get(&self, path: &Vec<char>) -> (r: Option<&Option<Vec<char>>>)
        ensures
            match r {
                Some(c) => self@.contains_key(path@) && option_view(*c) == self@[path@],
                None => !self@.contains_key(path@),
            },
    {
        self.table.get(path)
    }
}

/// Where each cycle directive of a render stands: for each name, the index
/// of the element that its next occurrence gives.
#[derive(Debug)]
pub struct Cycles {
    table: Table<usize>,
}

impl View for Cycles {
    type V = Map<Seq<char>, nat>;

    closed spec fn view(&self) -> Map<Seq<char>, nat> {
        Map::new(
            |k: Seq<char>| self.table.model().contains_key(k),
            |k: Seq<char>| self.table.model()[k] as nat,
        )
    }
}

/// The index that `cycles` holds for `name`: zero before its first use.
pub open spec fn cycle_index(cycles: Map<Seq<char>, nat>, name: Seq<char>) -> nat {
    if cycles.contains_key(name) {
        cycles[name]
    } else {
        0
    }
}

impl Cycles {
    /// Every cycle at its start.
    pub fn new() -> (c: Self)
        ensures
            c@ == Map::<Seq<char>, nat>::empty(),
    {
        let c = Cycles { table: Table::new() };
        assert(c@ =~= Map::<Seq<char>, nat>::empty());
        c
    }

    /// The index of the element that the next occurrence of `name` gives.
    pub fn index(&self, name: &Vec<char>) -> (i: usize)
        ensures
            i == cycle_index(self@, name@),
    {
        match self.table.get(name) {
            Some(i) => *i,
            None => 0,
        }
    }

    /// Sets the index of the element that the next occurrence of `name`
    /// gives.
    pub fn set(&mut self, name: Vec<char>, index: usize)
        ensures
            final(self)@ == old(self)@.insert(name@, index as nat),
    {
        self.table.put(name, index);
        assert(self@ =~= old(self)@.insert(name@, index as nat));
    }
}

/// What a render finds around it: a snapshot of the environment variables,
/// and what is known of the include files.
#[derive(Debug)]
pub struct Host {
    env: Variables,
    files: Files,
}

impl Host {
    /// The environment variables.
    pub closed spec fn env(&self) -> Map<Seq<char>, Seq<char>> {
        self.env@
    }

    /// What is known of the include files.
    pub closed spec fn files(&self) -> Map<Seq<char>, Option<Seq<char>>> {
        self.files@
    }

    /// A host with no environment variable and no file known.
    pub fn new() -> (h: Self)
        ensures
            h.env() == Map::<Seq<char>, Seq<char>>::empty(),
            h.files() == Map::<Seq<char>, Option<Seq<char>>>::empty(),
    {
        Host { env: Variables::new(), files: Files::new() }
    }

    /// Sets the environment variable `name` to `value`.
    pub fn set_env(&mut self, name: &str, value: &str)
        ensures
            final(self).env() == old(self).env().insert(name@, value@),
            final(self).files() == old(self).files(),
    {
        self.env.insert(name, value);
    }

    /// Records that the file at `path` holds `content`.
    pub fn add_file(&mut self, path: &str, content: &str)
        ensures
            final(self).env() == old(self).env(),
            final(self).files() == old(self).files().insert(path@, Some(content@)),
    {
        self.files.record(chars_of(path), Some(chars_of(content)));
    }

    /// Records that the file at `path` cannot be read.
    pub fn add_unreadable(&mut self, path: &str)
        ensures
            final(self).env() == old(self).env(),
            final(self).files() == old(self).files().insert(path@, None),
    {
        self.files.record(chars_of(path), None);
    }

    /// The value of the environment variable `name`.
    pub fn env_var(&self, name: &Vec<char>) -> (r: Option<&Vec<char>>)
        ensures
            match r {
                Some(v) => self.env().contains_key(name@) && v@ == self.env()[name@],
                None => !self.env().contains_key(name@),
            },
    {
        self.env.get(name)
    }

    /// What is known of the file at `path`.
    pub fn file(&self, path: &Vec<char>) -> (r: Option<&Option<Vec<char>>>)
        ensures
            match r {
                Some(c) => self.files().contains_key(path@) && option_view(*c) == self.files()[path@],
                None => !self.files().contains_key(path@),
            },
    {
        self.files.get(path)
    }
}

} // verus!
