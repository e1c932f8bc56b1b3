//! What the user has defined beside the catalog: aliases and templates of
//! their own.

use crate::name_map::NameMap;
use vstd::prelude::*;
use vstd::seq_lib::*;

verus! {

/// What the user has defined beside the catalog: aliases, each a name for a
/// list of template keys, and templates of their own, each a name for the path
/// of a file with its contents.
#[derive(Debug)]
pub struct Config {
    pub aliases: NameMap<Vec<String>>,
    pub templates: NameMap<String>,
}

/// How often a name is defined in a configuration with the given aliases and
/// templates: once as an alias, once as a template.
pub open spec fn definitions<A, T>(
    aliases: Map<Seq<char>, A>,
    templates: Map<Seq<char>, T>,
    name: Seq<char>,
) -> nat {
    let as_alias: nat = if aliases.contains_key(name) { 1 } else { 0 };
    let as_template: nat = if templates.contains_key(name) { 1 } else { 0 };
    as_alias + as_template
}

impl Config {
    /// The set of the names that the configuration defines.
    pub open spec fn name_set(&self) -> Set<Seq<char>> {
        self.aliases@.dom().union(self.templates@.dom())
    }

    /// A configuration that defines nothing.
    pub fn new() -> (r: Self)
        ensures
            r.aliases@ == Map::<Seq<char>, Vec<String>>::empty(),
            r.templates@ == Map::<Seq<char>, String>::empty(),
    {
        Config { aliases: NameMap::new(), templates: NameMap::new() }
    }

    /// The names of the aliases and of the user's templates. A name that is
    /// both comes twice.
    pub fn names(&self) -> (r: Vec<String>)
        ensures
            forall|name: Seq<char>| #[trigger]
                r.deep_view().to_multiset().count(name) == definitions(
                    self.aliases@,
                    self.templates@,
                    name,
                ),
    {
        let mut out = self.aliases.keys();
        let mut more = self.templates.keys();
        let ghost first = out.deep_view();
        let ghost second = more.deep_view();
        out.append(&mut more);
        proof {
            assert(out.deep_view() =~= first + second);
            lemma_multiset_commutative(first, second);
            first.lemma_multiset_has_no_duplicates();
            second.lemma_multiset_has_no_duplicates();
            assert forall|name: Seq<char>| #[trigger]
                out.deep_view().to_multiset().count(name) == definitions(
                    self.aliases@,
                    self.templates@,
                    name,
                ) by {
                to_multiset_contains(first, name);
                to_multiset_contains(second, name);
                assert(first.to_set().contains(name) == first.contains(name));
                assert(second.to_set().contains(name) == second.contains(name));
            }
        }
        out
    }

    /// Defines the alias `name` as `targets`, in place of an earlier definition.
    pub fn add_alias(&mut self, name: String, targets: Vec<String>)
        ensures
            final(self).aliases@ == old(self).aliases@.insert(name@, targets),
            final(self).templates@ == old(self).templates@,
    {
        self.aliases.insert(name, targets);
    }

    /// Takes the alias `name` away, if there is one.
    pub fn remove_alias(&mut self, name: &String)
        ensures
            final(self).aliases@ == old(self).aliases@.remove(name@),
            final(self).templates@ == old(self).templates@,
    {
        self.aliases.remove(name);
    }

    /// Registers the file at `path` as the template `name`, in place of an
    /// earlier registration.
    pub fn add_template(&mut self, name: String, path: String)
        ensures
            final(self).templates@ == old(self).templates@.insert(name@, path),
            final(self).aliases@ == old(self).aliases@,
    {
        self.templates.insert(name, path);
    }

    /// Takes the user's template `name` away, if there is one.
    pub fn remove_template(&mut self, name: &String)
        ensures
            final(self).templates@ == old(self).templates@.remove(name@),
            final(self).aliases@ == old(self).aliases@,
    {
        self.templates.remove(name);
    }
}

} // verus!
