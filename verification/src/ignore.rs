//! The catalog and the settings of a run, and what is answered from them: the
//! listing of names and the text of templates.

use crate::config::Config;
use crate::error::ReadError;
use crate::listing::{hits, insert_sorted, is_listing, lemma_full_listing, occurrences};
use crate::name_map::{entries_map, NameMap};
use crate::render::{body, expansion, rendered, wanted_files};
use crate::text::{chars_of, is_part, sorted};
use vstd::prelude::*;
use vstd::seq_lib::*;
use vstd::string::*;

verus! {

/// One record of the catalog.
#[derive(Debug)]
pub struct Template {
    pub key: String,
    pub name: String,
    pub file_name: String,
    pub contents: String,
}

/// What reading the cache file has given.
#[derive(Debug)]
pub enum CacheFile {
    /// There is no such file.
    Missing,
    /// The file does not hold a catalog.
    Malformed,
    /// The entries of the catalog that the file holds, in the order in which
    /// the file gives them: each a key and the record under it.
    Entries(Vec<(String, Template)>),
}

/// The address from which the catalog is fetched.
pub open spec fn catalog_address() -> Seq<char> {
    "https://www.gitignore.io/api/list?format=json"@
}

/// The settings of one run: where the catalog comes from, where it is kept,
/// and what the user has defined beside it.
#[derive(Debug)]
pub struct Core {
    pub server: String,
    pub cache_dir: String,
    pub ignore_file: String,
    pub config: Option<Config>,
}

impl Core {
    /// The aliases in force: those of the configuration, none without one.
    pub open spec fn aliases(&self) -> Map<Seq<char>, Vec<String>> {
        match self.config {
            Some(config) => config.aliases@,
            None => Map::empty(),
        }
    }

    /// The registered paths of the user's own templates, none without a
    /// configuration.
    pub open spec fn paths(&self) -> Map<Seq<char>, String> {
        match self.config {
            Some(config) => config.templates@,
            None => Map::empty(),
        }
    }

    /// The names that a listing can show: the keys of the catalog, the aliases
    /// and the user's own templates.
    pub open spec fn universe(&self, templates: Map<Seq<char>, Template>) -> Set<Seq<char>> {
        match self.config {
            Some(config) => templates.dom().union(config.name_set()),
            None => templates.dom(),
        }
    }

    /// A core that keeps its cache in `cache_dir`, the catalog in the file
    /// `ignore_file`, and works with the given configuration, if any.
    pub fn new(cache_dir: String, ignore_file: String, config: Option<Config>) -> (r: Self)
        ensures
            r.server@ == catalog_address(),
            r.cache_dir == cache_dir,
            r.ignore_file == ignore_file,
            r.config == config,
    {
        Core {
            server: String::from_str("https://www.gitignore.io/api/list?format=json"),
            cache_dir,
            ignore_file,
            config,
        }
    }

    /// Whether there is a cache, given whether its directory and its file are
    /// there: one of the two is enough.
    pub fn cache_exists(&self, dir_present: bool, file_present: bool) -> (r: bool)
        ensures
            r == (dir_present || file_present),
    {
        dir_present || file_present
    }

    /// The catalog that the cache file holds. Of two entries under one key
    /// the later one stays.
    pub fn read_file(&self, file: CacheFile) -> (r: Result<NameMap<Template>, ReadError>)
        ensures
            match file {
                CacheFile::Missing => r == Err::<NameMap<Template>, ReadError>(ReadError::NotFound),
                CacheFile::Malformed => r == Err::<NameMap<Template>, ReadError>(
                    ReadError::Malformed,
                ),
                CacheFile::Entries(entries) => r is Ok && r->Ok_0@ == entries_map(entries@),
            },
    {
        match file {
            CacheFile::Missing => Err(ReadError::NotFound),
            CacheFile::Malformed => Err(ReadError::Malformed),
            CacheFile::Entries(entries) => Ok(NameMap::from_entries(entries)),
        }
    }

    /// The targets of the alias `name`, if there is such an alias.
    fn alias_targets(&self, name: &String) -> (r: Option<&Vec<String>>)
        ensures
            match r {
                Some(targets) => self.aliases().contains_key(name@) && *targets
                    == self.aliases()[name@],
                None => !self.aliases().contains_key(name@),
            },
    {
        match &self.config {
            Some(config) => config.aliases.get(name),
            None => None,
        }
    }

    /// The path registered for the user's own template `name`, if there is
    /// such a template.
    fn registered_path(&self, name: &String) -> (r: Option<&String>)
        ensures
            match r {
                Some(path) => self.paths().contains_key(name@) && *path == self.paths()[name@],
                None => !self.paths().contains_key(name@),
            },
    {
        match &self.config {
            Some(config) => config.templates.get(name),
            None => None,
        }
    }

    /// The names that a listing can show, each once: the keys of `templates`
    /// and the names that the configuration defines.
    pub fn all_names(&self, templates: &NameMap<Template>) -> (r: Vec<String>)
        ensures
            r.deep_view().no_duplicates(),
            r.deep_view().to_set() == self.universe(templates@),
    {
        let mut combined: Vec<String> = match &self.config {
            Some(config) => config.names(),
            None => Vec::new(),
        };
        let mut keys = templates.keys();
        let ghost defined = combined.deep_view();
        let ghost known = keys.deep_view();
        combined.append(&mut keys);
        let ghost all = combined.deep_view();
        proof {
            assert(all =~= defined + known);
            assert forall|name: Seq<char>| all.to_set().contains(name) == self.universe(
                templates@,
            ).contains(name) by {
                to_multiset_contains(defined, name);
                assert(known.to_set().contains(name) == known.contains(name));
                if defined.contains(name) {
                    let k = choose|k: int| 0 <= k < defined.len() && defined[k] == name;
                    assert(all[k] == name);
                }
                if known.contains(name) {
                    let k = choose|k: int| 0 <= k < known.len() && known[k] == name;
                    assert(all[defined.len() + k] == name);
                }
            }
            assert(all.to_set() =~= self.universe(templates@));
        }
        let mut out: Vec<String> = Vec::new();
        let mut i: usize = 0;
        while i < combined.len()
            invariant
                i <= combined.len(),
                all == combined.deep_view(),
                out.deep_view().no_duplicates(),
                out.deep_view().to_set() == all.take(i as int).to_set(),
            decreases combined.len() - i,
        {
            let ghost before = out.deep_view();
            let present = holds(&out, &combined[i]);
            if !present {
                out.push(combined[i].clone());
            }
            proof {
                let name = all[i as int];
                assert(all.take(i + 1) =~= all.take(i as int).push(name));
                all.take(i as int).lemma_push_to_set_commute(name);
                if present {
                    assert(before.to_set().contains(name));
                    assert(before.to_set().insert(name) =~= before.to_set());
                } else {
                    assert(out.deep_view() =~= before.push(name));
                    before.lemma_push_to_set_commute(name);
                }
            }
            i += 1;
        }
        proof {
            assert(all.take(all.len() as int) =~= all);
        }
        out
    }

    /// The listing of the names that hold one of the requested strings, in
    /// order. A name comes once for each requested string that stands in it, and
    /// every name comes once where nothing is requested.
    pub fn get_template_names(&self, templates: &NameMap<Template>, names: &[String]) -> (r: Vec<
        String,
    >)
        ensures
            is_listing(r.deep_view(), self.universe(templates@), names.deep_view()),
            names@.len() == 0 ==> r.deep_view().no_duplicates() && r.deep_view().to_set()
                == self.universe(templates@),
    {
        let candidates = self.all_names(templates);
        let ghost known = candidates.deep_view();
        let ghost wanted = names.deep_view();
        let mut terms: Vec<Vec<char>> = Vec::new();
        let mut t: usize = 0;
        while t < names.len()
            invariant
                t <= names.len(),
                terms.len() == t,
                wanted == names.deep_view(),
                forall|k: int| 0 <= k < t ==> terms[k]@ == wanted[k],
            decreases names.len() - t,
        {
            terms.push(chars_of(names[t].as_str()));
            t += 1;
        }
        let mut result: Vec<String> = Vec::new();
        let mut keys: Vec<Vec<char>> = Vec::new();
        let mut i: usize = 0;
        proof {
            assert forall|name: Seq<char>| #[trigger]
                result.deep_view().to_multiset().count(name) == 0 by {
                to_multiset_contains(result.deep_view(), name);
            }
        }
        while i < candidates.len()
            invariant
                i <= candidates.len(),
                known == candidates.deep_view(),
                known.no_duplicates(),
                wanted == names.deep_view(),
                terms.len() == wanted.len(),
                forall|k: int| 0 <= k < terms.len() ==> terms[k]@ == wanted[k],
                keys.len() == result.len(),
                forall|k: int| 0 <= k < result.len() ==> keys[k]@ == result[k]@,
                sorted(result.deep_view()),
                forall|name: Seq<char>| #[trigger]
                    result.deep_view().to_multiset().count(name) == if known.take(
                        i as int,
                    ).contains(name) {
                        occurrences(wanted, name)
                    } else {
                        0
                    },
            decreases candidates.len() - i,
        {
            let chars = chars_of(candidates[i].as_str());
            let ghost current = known[i as int];
            let ghost earlier = result.deep_view().to_multiset();
            if terms.len() == 0 {
                insert_sorted(&mut result, &mut keys, candidates[i].clone());
            } else {
                let mut j: usize = 0;
                while j < terms.len()
                    invariant
                        j <= terms.len(),
                        i < candidates.len(),
                        known == candidates.deep_view(),
                        current == known[i as int],
                        chars@ == current,
                        terms.len() == wanted.len(),
                        forall|k: int| 0 <= k < terms.len() ==> terms[k]@ == wanted[k],
                        keys.len() == result.len(),
                        forall|k: int| 0 <= k < result.len() ==> keys[k]@ == result[k]@,
                        sorted(result.deep_view()),
                        forall|name: Seq<char>| #[trigger]
                            result.deep_view().to_multiset().count(name) == earlier.count(name)
                                + if name == current {
                                hits(wanted.take(j as int), current)
                            } else {
                                0
                            },
                    decreases terms.len() - j,
                {
                    if is_part(&terms[j], &chars) {
                        insert_sorted(&mut result, &mut keys, candidates[i].clone());
                    }
                    proof {
                        let next = wanted.take(j + 1);
                        assert(next.drop_last() =~= wanted.take(j as int));
                        assert(next.last() == wanted[j as int]);
                    }
                    j += 1;
                }
                proof {
                    assert(wanted.take(wanted.len() as int) =~= wanted);
                }
            }
            proof {
                let done = known.take(i as int);
                let next = known.take(i + 1);
                assert(next =~= done.push(current));
                assert(!done.contains(current)) by {
                    if done.contains(current) {
                        let k = choose|k: int| 0 <= k < done.len() && done[k] == current;
                        assert(known[k] == known[i as int]);
                    }
                }
                assert forall|name: Seq<char>| next.contains(name) == (done.contains(name) || name
                    == current) by {
                    if done.contains(name) {
                        let k = choose|k: int| 0 <= k < done.len() && done[k] == name;
                        assert(next[k] == name);
                    }
                    if name == current {
                        assert(next[i as int] == name);
                    }
                }
                assert(earlier.count(current) == 0);
            }
            i += 1;
        }
        proof {
            assert(known.take(known.len() as int) =~= known);
            assert forall|name: Seq<char>| known.contains(name) == self.universe(
                templates@,
            ).contains(name) by {
                assert(known.to_set().contains(name) == known.contains(name));
            }
            if names@.len() == 0 {
                assert(wanted =~= Seq::<Seq<char>>::empty());
                lemma_full_listing(result.deep_view(), self.universe(templates@));
            }
        }
        result
    }

    /// The files whose contents the text for the requested names takes in:
    /// for each requested name that is a template of the user's own, and
    /// neither an alias nor a key of `templates`, the name and the registered
    /// path, in the order of the request.
    pub fn custom_files(&self, templates: &NameMap<Template>, names: &[String]) -> (r: Vec<
        (String, String),
    >)
        ensures
            r.deep_view() == wanted_files(
                self.aliases(),
                templates@,
                self.paths(),
                names.deep_view(),
            ),
    {
        let mut out: Vec<(String, String)> = Vec::new();
        let mut i: usize = 0;
        while i < names.len()
            invariant
                i <= names.len(),
                out.deep_view() == wanted_files(
                    self.aliases(),
                    templates@,
                    self.paths(),
                    names.deep_view().take(i as int),
                ),
            decreases names.len() - i,
        {
            let name = &names[i];
            let ghost before = out.deep_view();
            if self.alias_targets(name).is_none() && !templates.contains_key(name) {
                if let Some(path) = self.registered_path(name) {
                    out.push((name.clone(), path.clone()));
                    assert(out.deep_view() =~= before.push((name@, path@)));
                }
            }
            proof {
                let next = names.deep_view().take(i + 1);
                assert(next.drop_last() =~= names.deep_view().take(i as int));
                assert(next.last() == name@);
            }
            i += 1;
        }
        proof {
            assert(names.deep_view().take(names.len() as int) =~= names.deep_view());
        }
        out
    }

    /// The text for the requested names, from the records in `templates` and
    /// the contents in `custom` of the user's own templates.
    pub fn get_templates(
        &self,
        templates: &NameMap<Template>,
        custom: &NameMap<String>,
        names: &[String],
    ) -> (r: String)
        ensures
            r@ == rendered(self.aliases(), templates@, self.paths(), custom@, names.deep_view()),
    {
        let mut result = String::new();
        let mut i: usize = 0;
        while i < names.len()
            invariant
                i <= names.len(),
                result@ == body(
                    self.aliases(),
                    templates@,
                    self.paths(),
                    custom@,
                    names.deep_view().take(i as int),
                ),
            decreases names.len() - i,
        {
            let name = &names[i];
            let ghost before = result@;
            match self.alias_targets(name) {
                Some(targets) => {
                    let mut j: usize = 0;
                    while j < targets.len()
                        invariant
                            j <= targets.len(),
                            result@ == before + expansion(
                                templates@,
                                targets.deep_view().take(j as int),
                            ),
                        decreases targets.len() - j,
                    {
                        if let Some(language) = templates.get(&targets[j]) {
                            result.append(language.contents.as_str());
                        }
                        proof {
                            let next = targets.deep_view().take(j + 1);
                            assert(next.drop_last() =~= targets.deep_view().take(j as int));
                            assert(next.last() == targets[j as int]@);
                        }
                        j += 1;
                    }
                    proof {
                        assert(targets.deep_view().take(targets.len() as int)
                            =~= targets.deep_view());
                    }
                },
                None => {
                    if let Some(language) = templates.get(name) {
                        result.append(language.contents.as_str());
                    } else if self.registered_path(name).is_some() {
                        if let Some(text) = custom.get(name) {
                            result.append(text.as_str());
                        }
                    }
                },
            }
            proof {
                let next = names.deep_view().take(i + 1);
                assert(next.drop_last() =~= names.deep_view().take(i as int));
                assert(next.last() == name@);
            }
            i += 1;
        }
        proof {
            assert(names.deep_view().take(names.len() as int) =~= names.deep_view());
        }
        if result.as_str().is_empty() {
            result
        } else {
            let mut text = String::from_str("\n\n### Created by https://www.gitignore.io");
            text.append(result.as_str());
            text
        }
    }
}

/// Whether `name` is one of the strings of `list`.
fn holds(list: &Vec<String>, name: &String) -> (r: bool)
    ensures
        r == list.deep_view().contains(name@),
{
    let mut i: usize = 0;
    while i < list.len()
        invariant
            i <= list.len(),
            forall|k: int| 0 <= k < i ==> list.deep_view()[k] != name@,
        decreases list.len() - i,
    {
        if list[i].eq(name) {
            assert(list.deep_view()[i as int] == name@);
            return true;
        }
        i += 1;
    }
    false
}

} // verus!
