//! The order of strings, and the search for one string in another.

use vstd::prelude::*;

verus! {

/// Whether `a` stands before `b`, or is `b`, in the order of strings: at the
/// first place where the two differ, `a` has the character with the lower code
/// point, and a string stands before each of its extensions.
pub open spec fn precedes(a: Seq<char>, b: Seq<char>) -> bool
    decreases a.len(),
{
    if a.len() == 0 {
        true
    } else if b.len() == 0 {
        false
    } else if a[0] == b[0] {
        precedes(a.drop_first(), b.drop_first())
    } else {
        (a[0] as int) < (b[0] as int)
    }
}

/// Whether the strings of `list` stand in order, equal ones side by side.
pub open spec fn sorted(list: Seq<Seq<char>>) -> bool {
    forall|i: int, j: int| 0 <= i < j < list.len() ==> precedes(list[i], list[j])
}

/// Whether `part` stands in `whole` from place `at` on.
pub open spec fn occurs_at(part: Seq<char>, whole: Seq<char>, at: int) -> bool {
    0 <= at && at + part.len() <= whole.len() && whole.subrange(at, at + part.len()) == part
}

/// Whether `part` stands somewhere in `whole`, character for character.
pub open spec fn is_substring(part: Seq<char>, whole: Seq<char>) -> bool {
    exists|at: int| occurs_at(part, whole, at)
}

/// Every string stands before or at itself.
pub proof fn lemma_precedes_reflexive(a: Seq<char>)
    ensures
        precedes(a, a),
    decreases a.len(),
{
    if a.len() > 0 {
        lemma_precedes_reflexive(a.drop_first());
    }
}

/// Of two strings one stands before the other, or they are the same.
pub proof fn lemma_precedes_total(a: Seq<char>, b: Seq<char>)
    ensures
        precedes(a, b) || precedes(b, a),
    decreases a.len(),
{
    if a.len() > 0 && b.len() > 0 {
        if a[0] == b[0] {
            lemma_precedes_total(a.drop_first(), b.drop_first());
        }
    }
}

/// Two strings that each stand before or at the other are the same.
pub proof fn lemma_precedes_antisymmetric(a: Seq<char>, b: Seq<char>)
    requires
        precedes(a, b),
        precedes(b, a),
    ensures
        a == b,
    decreases a.len(),
{
    if a.len() == 0 || b.len() == 0 {
        assert(a =~= b);
    } else {
        lemma_precedes_antisymmetric(a.drop_first(), b.drop_first());
        assert(a =~= seq![a[0]] + a.drop_first());
        assert(b =~= seq![b[0]] + b.drop_first());
    }
}

/// What stands before a string stands before all that the string stands before.
pub proof fn lemma_precedes_transitive(a: Seq<char>, b: Seq<char>, c: Seq<char>)
    requires
        precedes(a, b),
        precedes(b, c),
    ensures
        precedes(a, c),
    decreases a.len(),
{
    if a.len() > 0 && a[0] == b[0] && b[0] == c[0] {
        lemma_precedes_transitive(a.drop_first(), b.drop_first(), c.drop_first());
    }
}

/// The characters of a string.
pub fn chars_of(s: &str) -> (r: Vec<char>)
    ensures
        r@ == s@,
{
    broadcast use vstd::string::group_string_axioms;

    let mut out: Vec<char> = Vec::new();
    for c in it: s.chars()
        invariant
            it.seq() == s@,
            out@ == it.seq().take(it.index() as int),
    {
        out.push(c);
    }
    out
}

/// Whether `a` stands before or at `b` in the order of strings.
pub fn comes_before(a: &Vec<char>, b: &Vec<char>) -> (r: bool)
    ensures
        r == precedes(a@, b@),
{
    let mut i: usize = 0;
    proof {
        assert(a@.skip(0) =~= a@);
        assert(b@.skip(0) =~= b@);
    }
    while i < a.len() && i < b.len()
        invariant
            i <= a.len(),
            i <= b.len(),
            precedes(a@, b@) == precedes(a@.skip(i as int), b@.skip(i as int)),
        decreases a.len() - i,
    {
        proof {
            assert(a@.skip(i as int).drop_first() =~= a@.skip(i + 1));
            assert(b@.skip(i as int).drop_first() =~= b@.skip(i + 1));
            assert(a@.skip(i as int)[0] == a[i as int]);
            assert(b@.skip(i as int)[0] == b[i as int]);
        }
        if a[i] != b[i] {
            return a[i] < b[i];
        }
        i += 1;
    }
    i == a.len()
}

/// Whether `part` stands in `whole` from place `at` on.
fn matches_at(part: &Vec<char>, whole: &Vec<char>, at: usize) -> (r: bool)
    requires
        at + part.len() <= whole.len(),
    ensures
        r == occurs_at(part@, whole@, at as int),
{
    let mut k: usize = 0;
    while k < part.len()
        invariant
            k <= part.len(),
            at + part.len() <= whole.len(),
            forall|n: int| 0 <= n < k ==> whole[at + n] == part[n],
        decreases part.len() - k,
    {
        if whole[at + k] != part[k] {
            assert(whole@.subrange(at as int, at + part.len())[k as int] != part[k as int]);
            return false;
        }
        k += 1;
    }
    assert(whole@.subrange(at as int, at + part.len()) =~= part@);
    true
}

/// Whether `part` stands somewhere in `whole`.
pub fn is_part(part: &Vec<char>, whole: &Vec<char>) -> (r: bool)
    ensures
        r == is_substring(part@, whole@),
{
    if part.len() > whole.len() {
        return false;
    }
    let last: usize = whole.len() - part.len();
    let mut at: usize = 0;
    while at < last
        invariant
            last == whole.len() - part.len(),
            at <= last,
            forall|n: int| 0 <= n < at ==> !occurs_at(part@, whole@, n),
        decreases last - at,
    {
        if matches_at(part, whole, at) {
            return true;
        }
        at += 1;
    }
    matches_at(part, whole, last)
}

} // verus!
