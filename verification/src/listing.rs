//! What a listing of names is, and why there is only one for each request.

use crate::text::{
    chars_of, comes_before, is_substring, lemma_precedes_antisymmetric, lemma_precedes_reflexive,
    lemma_precedes_total, lemma_precedes_transitive, precedes, sorted,
};
use vstd::prelude::*;
use vstd::seq_lib::*;

verus! {

/// How many of the terms stand in `name`. A term that is given twice counts
/// twice.
pub open spec fn hits(terms: Seq<Seq<char>>, name: Seq<char>) -> nat
    decreases terms.len(),
{
    if terms.len() == 0 {
        0
    } else {
        let found: nat = if is_substring(terms.last(), name) {
            1
        } else {
            0
        };
        hits(terms.drop_last(), name) + found
    }
}

/// How often a listing for `terms` shows a name that it knows: once where no
/// term is given, and else once for each term that stands in the name.
pub open spec fn occurrences(terms: Seq<Seq<char>>, name: Seq<char>) -> nat {
    if terms.len() == 0 {
        1
    } else {
        hits(terms, name)
    }
}

/// Whether `list` is the listing of the names in `universe` for `terms`: it is
/// in order, shows each name of the universe as often as the terms ask, and
/// shows no other name.
pub open spec fn is_listing(
    list: Seq<Seq<char>>,
    universe: Set<Seq<char>>,
    terms: Seq<Seq<char>>,
) -> bool {
    &&& sorted(list)
    &&& forall|name: Seq<char>| #[trigger]
        list.to_multiset().count(name) == if universe.contains(name) {
            occurrences(terms, name)
        } else {
            0
        }
}

/// Two lists in order that hold the same strings equally often are the same
/// list.
pub proof fn lemma_sorted_unique(a: Seq<Seq<char>>, b: Seq<Seq<char>>)
    requires
        sorted(a),
        sorted(b),
        a.to_multiset() == b.to_multiset(),
    ensures
        a == b,
    decreases a.len(),
{
    to_multiset_len(a);
    to_multiset_len(b);
    if a.len() == 0 {
        assert(a =~= b);
    } else {
        let x = a.last();
        let y = b.last();
        assert(precedes(x, y)) by {
            to_multiset_contains(a, x);
            to_multiset_contains(b, x);
            assert(a.contains(x));
            let k = choose|k: int| 0 <= k < b.len() && b[k] == x;
            if k == b.len() - 1 {
                lemma_precedes_reflexive(x);
            }
        }
        assert(precedes(y, x)) by {
            to_multiset_contains(a, y);
            to_multiset_contains(b, y);
            assert(b.contains(y));
            let k = choose|k: int| 0 <= k < a.len() && a[k] == y;
            if k == a.len() - 1 {
                lemma_precedes_reflexive(y);
            }
        }
        lemma_precedes_antisymmetric(x, y);
        let a0 = a.drop_last();
        let b0 = b.drop_last();
        assert(a =~= a0.push(x));
        assert(b =~= b0.push(x));
        to_multiset_build(a0, x);
        to_multiset_build(b0, x);
        assert(a0.to_multiset() =~= b0.to_multiset()) by {
            assert forall|s: Seq<char>| a0.to_multiset().count(s) == b0.to_multiset().count(s) by {
                assert(a0.to_multiset().insert(x).count(s) == b0.to_multiset().insert(x).count(s));
            }
        }
        lemma_sorted_unique(a0, b0);
    }
}

/// For one universe and one list of terms there is one listing only: asked
/// twice, the same list comes twice.
pub proof fn lemma_listing_unique(
    a: Seq<Seq<char>>,
    b: Seq<Seq<char>>,
    universe: Set<Seq<char>>,
    terms: Seq<Seq<char>>,
)
    requires
        is_listing(a, universe, terms),
        is_listing(b, universe, terms),
    ensures
        a == b,
{
    assert(a.to_multiset() =~= b.to_multiset()) by {
        assert forall|s: Seq<char>| a.to_multiset().count(s) == b.to_multiset().count(s) by {}
    }
    lemma_sorted_unique(a, b);
}

/// The listing for no terms is the universe in order: every name of it once,
/// and nothing else.
pub proof fn lemma_full_listing(list: Seq<Seq<char>>, universe: Set<Seq<char>>)
    requires
        is_listing(list, universe, Seq::empty()),
    ensures
        sorted(list),
        list.no_duplicates(),
        list.to_set() == universe,
{
    assert forall|name: Seq<char>| list.to_multiset().contains(name) implies list.to_multiset().count(
        name,
    ) == 1 by {}
    list.lemma_multiset_has_no_duplicates_conv();
    assert forall|name: Seq<char>| list.to_set().contains(name) == universe.contains(name) by {
        to_multiset_contains(list, name);
    }
    assert(list.to_set() =~= universe);
}

/// Puts `text` into the list at its place in the order. `keys` holds the
/// characters of each string of `out`.
pub(crate) fn insert_sorted(out: &mut Vec<String>, keys: &mut Vec<Vec<char>>, text: String)
    requires
        old(keys).len() == old(out).len(),
        forall|k: int| 0 <= k < old(out).len() ==> old(keys)[k]@ == old(out)[k]@,
        sorted(old(out).deep_view()),
    ensures
        final(keys).len() == final(out).len(),
        forall|k: int| 0 <= k < final(out).len() ==> final(keys)[k]@ == final(out)[k]@,
        sorted(final(out).deep_view()),
        final(out).deep_view().to_multiset() == old(out).deep_view().to_multiset().insert(text@),
{
    let chars = chars_of(text.as_str());
    let ghost before = out.deep_view();
    let mut at: usize = out.len();
    while at > 0 && !comes_before(&keys[at - 1], &chars)
        invariant
            at <= out.len(),
            keys.len() == out.len(),
            out.deep_view() == before,
            chars@ == text@,
            forall|k: int| 0 <= k < out.len() ==> keys[k]@ == out[k]@,
            forall|k: int| at <= k < out.len() ==> precedes(text@, before[k]),
        decreases at,
    {
        proof {
            lemma_precedes_total(before[at - 1], text@);
        }
        at -= 1;
    }
    proof {
        assert forall|k: int| 0 <= k < at implies precedes(before[k], text@) by {
            if k < at - 1 {
                lemma_precedes_transitive(before[k], before[at - 1], text@);
            }
        }
    }
    out.insert(at, text);
    keys.insert(at, chars);
    proof {
        let after = out.deep_view();
        assert(after =~= before.insert(at as int, text@));
        to_multiset_insert(before, at as int, text@);
        assert forall|i: int, j: int| 0 <= i < j < after.len() implies precedes(
            after[i],
            after[j],
        ) by {
            let i0 = if i < at { i } else { i - 1 };
            let j0 = if j < at { j } else { j - 1 };
            if i != at && j != at {
                assert(precedes(before[i0], before[j0]));
            }
        }
    }
}

} // verus!
