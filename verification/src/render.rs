//! The text that requested names stand for.

use crate::ignore::Template;
use vstd::prelude::*;

verus! {

/// The line that stands before every text that is not empty.
pub open spec fn header() -> Seq<char> {
    "\n\n### Created by https://www.gitignore.io"@
}

/// What the key of a template stands for: the contents of the record
/// under it, and nothing where the catalog has no such record.
pub open spec fn record_text(templates: Map<Seq<char>, Template>, key: Seq<char>) -> Seq<char> {
    if templates.contains_key(key) {
        templates[key].contents@
    } else {
        Seq::empty()
    }
}

/// What an alias with the given targets stands for: the texts of its targets,
/// in their order, with nothing between them.
pub open spec fn expansion(templates: Map<Seq<char>, Template>, targets: Seq<Seq<char>>) -> Seq<
    char,
>
    decreases targets.len(),
{
    if targets.len() == 0 {
        Seq::empty()
    } else {
        expansion(templates, targets.drop_last()) + record_text(templates, targets.last())
    }
}

/// Whether the text for `name` comes from a file of the user's own: the name
/// is registered, and is neither an alias nor a key of the catalog.
pub open spec fn reads_file(
    aliases: Map<Seq<char>, Vec<String>>,
    templates: Map<Seq<char>, Template>,
    paths: Map<Seq<char>, String>,
    name: Seq<char>,
) -> bool {
    !aliases.contains_key(name) && !templates.contains_key(name) && paths.contains_key(name)
}

/// What one requested name stands for. An alias goes before a record of the
/// catalog, and that before a template of the user's own, which counts where
/// it is registered and its file's contents are at hand in `custom`.
pub open spec fn contribution(
    aliases: Map<Seq<char>, Vec<String>>,
    templates: Map<Seq<char>, Template>,
    paths: Map<Seq<char>, String>,
    custom: Map<Seq<char>, String>,
    name: Seq<char>,
) -> Seq<char> {
    if aliases.contains_key(name) {
        expansion(templates, aliases[name].deep_view())
    } else if templates.contains_key(name) {
        templates[name].contents@
    } else if reads_file(aliases, templates, paths, name) && custom.contains_key(name) {
        custom[name]@
    } else {
        Seq::empty()
    }
}

/// What the requested names stand for, one after the other.
pub open spec fn body(
    aliases: Map<Seq<char>, Vec<String>>,
    templates: Map<Seq<char>, Template>,
    paths: Map<Seq<char>, String>,
    custom: Map<Seq<char>, String>,
    names: Seq<Seq<char>>,
) -> Seq<char>
    decreases names.len(),
{
    if names.len() == 0 {
        Seq::empty()
    } else {
        body(aliases, templates, paths, custom, names.drop_last()) + contribution(
            aliases,
            templates,
            paths,
            custom,
            names.last(),
        )
    }
}

/// The text for the requested names: their body under the header, or nothing
/// at all where the body is empty.
pub open spec fn rendered(
    aliases: Map<Seq<char>, Vec<String>>,
    templates: Map<Seq<char>, Template>,
    paths: Map<Seq<char>, String>,
    custom: Map<Seq<char>, String>,
    names: Seq<Seq<char>>,
) -> Seq<char> {
    let text = body(aliases, templates, paths, custom, names);
    if text.len() == 0 {
        text
    } else {
        header() + text
    }
}

/// The files that the text for `names` takes in, each as the requested name
/// and the path registered for it, in the order of the request.
pub open spec fn wanted_files(
    aliases: Map<Seq<char>, Vec<String>>,
    templates: Map<Seq<char>, Template>,
    paths: Map<Seq<char>, String>,
    names: Seq<Seq<char>>,
) -> Seq<(Seq<char>, Seq<char>)>
    decreases names.len(),
{
    if names.len() == 0 {
        Seq::empty()
    } else {
        let earlier = wanted_files(aliases, templates, paths, names.drop_last());
        if reads_file(aliases, templates, paths, names.last()) {
            earlier.push((names.last(), paths[names.last()]@))
        } else {
            earlier
        }
    }
}

/// The body of two requests, one after the other, is the body of the first and
/// then that of the second.
pub proof fn lemma_body_of_both(
    aliases: Map<Seq<char>, Vec<String>>,
    templates: Map<Seq<char>, Template>,
    paths: Map<Seq<char>, String>,
    custom: Map<Seq<char>, String>,
    first: Seq<Seq<char>>,
    second: Seq<Seq<char>>,
)
    ensures
        body(aliases, templates, paths, custom, first + second) == body(
            aliases,
            templates,
            paths,
            custom,
            first,
        ) + body(aliases, templates, paths, custom, second),
    decreases second.len(),
{
    if second.len() == 0 {
        assert(first + second =~= first);
    } else {
        assert((first + second).drop_last() =~= first + second.drop_last());
        lemma_body_of_both(aliases, templates, paths, custom, first, second.drop_last());
    }
}

/// The expansion of two lists of targets, one after the other, is the
/// expansion of the first and then that of the second.
pub proof fn lemma_expansion_of_both(
    templates: Map<Seq<char>, Template>,
    first: Seq<Seq<char>>,
    second: Seq<Seq<char>>,
)
    ensures
        expansion(templates, first + second) == expansion(templates, first) + expansion(
            templates,
            second,
        ),
    decreases second.len(),
{
    if second.len() == 0 {
        assert(first + second =~= first);
    } else {
        assert((first + second).drop_last() =~= first + second.drop_last());
        lemma_expansion_of_both(templates, first, second.drop_last());
    }
}

/// A requested name that nothing is known under adds nothing: with it at any
/// place of the request, the text is what it is without it.
pub proof fn lemma_unknown_name_adds_nothing(
    aliases: Map<Seq<char>, Vec<String>>,
    templates: Map<Seq<char>, Template>,
    paths: Map<Seq<char>, String>,
    custom: Map<Seq<char>, String>,
    names: Seq<Seq<char>>,
    at: int,
    name: Seq<char>,
)
    requires
        0 <= at <= names.len(),
        !aliases.contains_key(name),
        !templates.contains_key(name),
        !(paths.contains_key(name) && custom.contains_key(name)),
    ensures
        contribution(aliases, templates, paths, custom, name) == Seq::<char>::empty(),
        rendered(aliases, templates, paths, custom, names.insert(at, name)) == rendered(
            aliases,
            templates,
            paths,
            custom,
            names,
        ),
{
    let head = names.take(at);
    let tail = names.skip(at);
    let one = seq![name];
    assert(names =~= head + tail);
    assert(names.insert(at, name) =~= head + one + tail);
    assert(one.drop_last() =~= Seq::<Seq<char>>::empty());
    assert(body(aliases, templates, paths, custom, one) =~= Seq::<char>::empty()) by {
        reveal_with_fuel(body, 2);
    }
    lemma_body_of_both(aliases, templates, paths, custom, head, one);
    lemma_body_of_both(aliases, templates, paths, custom, head + one, tail);
    lemma_body_of_both(aliases, templates, paths, custom, head, tail);
    assert(body(aliases, templates, paths, custom, head + one + tail) =~= body(
        aliases,
        templates,
        paths,
        custom,
        head + tail,
    ));
}

/// An alias with a target that the catalog does not have stands for the
/// texts of its other targets: the missing one is passed over.
pub proof fn lemma_missing_target_skipped(
    aliases: Map<Seq<char>, Vec<String>>,
    templates: Map<Seq<char>, Template>,
    paths: Map<Seq<char>, String>,
    custom: Map<Seq<char>, String>,
    name: Seq<char>,
    others: Seq<Seq<char>>,
    at: int,
    missing: Seq<char>,
)
    requires
        0 <= at <= others.len(),
        aliases.contains_key(name),
        aliases[name].deep_view() == others.insert(at, missing),
        !templates.contains_key(missing),
    ensures
        expansion(templates, others.insert(at, missing)) == expansion(templates, others),
        contribution(aliases, templates, paths, custom, name) == expansion(templates, others),
{
    let head = others.take(at);
    let tail = others.skip(at);
    let one = seq![missing];
    assert(others =~= head + tail);
    assert(others.insert(at, missing) =~= head + one + tail);
    assert(one.drop_last() =~= Seq::<Seq<char>>::empty());
    assert(expansion(templates, one) =~= Seq::<char>::empty()) by {
        reveal_with_fuel(expansion, 2);
    }
    lemma_expansion_of_both(templates, head, one);
    lemma_expansion_of_both(templates, head + one, tail);
    lemma_expansion_of_both(templates, head, tail);
    assert(expansion(templates, head + one + tail) =~= expansion(templates, head + tail));
}

} // verus!
