//! A map from names to values in which no name stands twice.

use vstd::prelude::*;

verus! {

/// A finite map from names to values.
///
/// The entries are held in two parallel vectors, in the order in which their
/// names were first inserted, and no name occurs twice. The view is the map
/// itself; the order of the entries shows in no contract.
#[derive(Debug)]
pub struct NameMap<V> {
    names: Vec<String>,
    values: Vec<V>,
}

/// The map that a list of entries denotes: the entries are inserted from first
/// to last, so that of two entries under one name the later one stays.
pub open spec fn entries_map<V>(entries: Seq<(String, V)>) -> Map<Seq<char>, V>
    decreases entries.len(),
{
    if entries.len() == 0 {
        Map::empty()
    } else {
        entries_map(entries.drop_last()).insert(entries.last().0@, entries.last().1)
    }
}

impl<V> View for NameMap<V> {
    type V = Map<Seq<char>, V>;

    closed spec fn view(&self) -> Map<Seq<char>, V> {
        Map::new(
            |name: Seq<char>| self.holds(name),
            |name: Seq<char>| self.values[self.position(name)],
        )
    }
}

impl<V> NameMap<V> {
    #[verifier::type_invariant]
    spec fn well_formed(&self) -> bool {
        &&& self.names.len() == self.values.len()
        &&& forall|i: int, j: int|
            0 <= i < j < self.names.len() ==> self.names[i]@ != self.names[j]@
    }

    spec fn stands_at(&self, name: Seq<char>, i: int) -> bool {
        0 <= i < self.names.len() && self.names[i]@ == name
    }

    spec fn holds(&self, name: Seq<char>) -> bool {
        exists|i: int| self.stands_at(name, i)
    }

    spec fn position(&self, name: Seq<char>) -> int {
        choose|i: int| self.stands_at(name, i)
    }

    /// A name stands at one place only, and the view has the value of that place.
    proof fn lemma_entry(&self, name: Seq<char>, i: int)
        requires
            self.well_formed(),
            self.stands_at(name, i),
        ensures
            self.holds(name),
            self.position(name) == i,
            self@.contains_key(name),
            self@[name] == self.values[i],
    {
        let p = self.position(name);
        assert(self.stands_at(name, p));
        if p < i {
            assert(self.names[p]@ != self.names[i]@);
        } else if i < p {
            assert(self.names[i]@ != self.names[p]@);
        }
    }

    /// The empty map.
    pub fn new() -> (r: Self)
        ensures
            r@ == Map::<Seq<char>, V>::empty(),
    {
        let r = NameMap { names: Vec::new(), values: Vec::new() };
        assert(r@ =~= Map::<Seq<char>, V>::empty());
        r
    }

    /// Where `name` stands among the names, if it does.
    fn find(&self, name: &String) -> (r: Option<usize>)
        ensures
            match r {
                Some(i) => self.stands_at(name@, i as int),
                None => !self.holds(name@),
            },
    {
        let mut i: usize = 0;
        while i < self.names.len()
            invariant
                i <= self.names.len(),
                forall|k: int| 0 <= k < i ==> !self.stands_at(name@, k),
            decreases self.names.len() - i,
        {
            if self.names[i].eq(name) {
                return Some(i);
            }
            i += 1;
        }
        None
    }

    /// Whether the map has a value under `name`.
    pub fn contains_key(&self, name: &String) -> (r: bool)
        ensures
            r == self@.contains_key(name@),
    {
        self.find(name).is_some()
    }

    /// The value under `name`, if the map has one.
    pub fn get(&self, name: &String) -> (r: Option<&V>)
        ensures
            match r {
                Some(v) => self@.contains_key(name@) && *v == self@[name@],
                None => !self@.contains_key(name@),
            },
    {
        proof {
            use_type_invariant(self);
        }
        match self.find(name) {
            Some(i) => {
                proof {
                    self.lemma_entry(name@, i as int);
                }
                Some(&self.values[i])
            },
            None => None,
        }
    }

    /// Puts `value` under `name`, in place of the value that was there, if any.
    pub fn insert(&mut self, name: String, value: V)
        ensures
            final(self)@ == old(self)@.insert(name@, value),
    {
        let found = self.find(&name);
        let mut taken = NameMap::new();
        std::mem::swap(self, &mut taken);
        proof {
            use_type_invariant(&taken);
        }
        let ghost before = taken;
        let NameMap { mut names, mut values } = taken;
        match found {
            Some(i) => {
                values[i] = value;
            },
            None => {
                names.push(name);
                values.push(value);
                assert forall|i: int, j: int| 0 <= i < j < names.len() implies names[i]@
                    != names[j]@ by {
                    if j == names.len() - 1 {
                        assert(!before.stands_at(name@, i));
                    }
                }
            },
        }
        let after = NameMap { names, values };
        proof {
            let wanted = before@.insert(name@, value);
            assert forall|n: Seq<char>| after@.contains_key(n) == wanted.contains_key(n) by {
                if after.holds(n) {
                    let p = after.position(n);
                    assert(after.stands_at(n, p));
                    if p < before.names.len() {
                        assert(before.stands_at(n, p));
                    }
                }
                if before.holds(n) {
                    assert(after.stands_at(n, before.position(n)));
                }
                if n == name@ {
                    match found {
                        Some(i) => {
                            assert(after.stands_at(n, i as int));
                        },
                        None => {
                            assert(after.stands_at(n, after.names.len() - 1));
                        },
                    }
                }
            }
            assert forall|n: Seq<char>| after@.contains_key(n) implies after@[n] == wanted[n] by {
                let p = after.position(n);
                assert(after.stands_at(n, p));
                after.lemma_entry(n, p);
                if n != name@ {
                    assert(before.stands_at(n, p));
                    before.lemma_entry(n, p);
                } else {
                    match found {
                        Some(i) => {
                            after.lemma_entry(n, i as int);
                        },
                        None => {
                            after.lemma_entry(n, after.names.len() - 1);
                        },
                    }
                }
            }
            assert(after@ =~= wanted);
        }
        *self = after;
    }

    /// Takes away `name` and its value, if the map has one.
    pub fn remove(&mut self, name: &String)
        ensures
            final(self)@ == old(self)@.remove(name@),
    {
        let found = self.find(name);
        if let Some(i) = found {
            let mut taken = NameMap::new();
            std::mem::swap(self, &mut taken);
            proof {
                use_type_invariant(&taken);
            }
            let ghost before = taken;
            let NameMap { mut names, mut values } = taken;
            names.remove(i);
            values.remove(i);
            let after = NameMap { names, values };
            proof {
                let wanted = before@.remove(name@);
                assert forall|k: int| 0 <= k < after.names.len() implies after.names[k]
                    == before.names[if k < i { k } else { k + 1 }] && after.values[k]
                    == before.values[if k < i { k } else { k + 1 }] by {}
                assert forall|n: Seq<char>| after@.contains_key(n) == wanted.contains_key(n) by {
                    if after.holds(n) {
                        let p = after.position(n);
                        assert(after.stands_at(n, p));
                        let q = if p < i { p } else { p + 1 };
                        assert(before.stands_at(n, q));
                        if n == name@ {
                            before.lemma_entry(n, q);
                            before.lemma_entry(n, i as int);
                        }
                    }
                    if before.holds(n) && n != name@ {
                        let q = before.position(n);
                        assert(before.stands_at(n, q));
                        assert(after.stands_at(n, if q < i { q } else { q - 1 }));
                    }
                }
                assert forall|n: Seq<char>| after@.contains_key(n) implies after@[n]
                    == wanted[n] by {
                    let p = after.position(n);
                    assert(after.stands_at(n, p));
                    after.lemma_entry(n, p);
                    before.lemma_entry(n, if p < i { p } else { p + 1 });
                }
                assert(after@ =~= wanted);
            }
            *self = after;
        } else {
            assert(self@ =~= old(self)@.remove(name@));
        }
    }

    /// The names of the map, each once.
    pub fn keys(&self) -> (r: Vec<String>)
        ensures
            r.deep_view().no_duplicates(),
            r.deep_view().to_set() == self@.dom(),
    {
        proof {
            use_type_invariant(self);
        }
        let mut out: Vec<String> = Vec::new();
        let mut i: usize = 0;
        while i < self.names.len()
            invariant
                i <= self.names.len(),
                out.len() == i,
                forall|k: int| 0 <= k < i ==> out[k]@ == self.names[k]@,
            decreases self.names.len() - i,
        {
            out.push(self.names[i].clone());
            i += 1;
        }
        proof {
            let texts = out.deep_view();
            assert forall|k: int| 0 <= k < texts.len() implies texts[k] == self.names[k]@ by {}
            assert forall|n: Seq<char>| texts.to_set().contains(n) == self@.dom().contains(n) by {
                if texts.contains(n) {
                    let k = choose|k: int| 0 <= k < texts.len() && texts[k] == n;
                    assert(self.stands_at(n, k));
                }
                if self.holds(n) {
                    let k = self.position(n);
                    assert(self.stands_at(n, k));
                    assert(texts[k] == n);
                }
            }
            assert(texts.to_set() =~= self@.dom());
        }
        out
    }

    /// The map that `entries` denote: of two entries under one name the later
    /// one stays.
    pub fn from_entries(entries: Vec<(String, V)>) -> (r: Self)
        ensures
            r@ == entries_map(entries@),
    {
        let mut out = NameMap::new();
        let ghost all = entries@;
        for entry in it: entries
            invariant
                it.seq() == all,
                out@ == entries_map(all.take(it.index() as int)),
        {
            let ghost done = all.take(it.index() as int);
            let (name, value) = entry;
            out.insert(name, value);
            proof {
                let next = all.take(it.index() + 1);
                assert(next.drop_last() =~= done);
                assert(next.last() == entry);
            }
        }
        proof {
            assert(all.take(all.len() as int) =~= all);
        }
        out
    }
}

} // verus!
