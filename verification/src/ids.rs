use vstd::prelude::*;

verus! {

broadcast use {vstd::seq_lib::group_to_multiset_ensures, vstd::multiset::group_multiset_axioms};

/// The identifier of a user, bookcase, shelf or book: the 128 bits of its UUID.
pub type Id = u128;

/// Two lists hold the same identifiers, each as often, in any order.
pub open spec fn same_members(a: Seq<Id>, b: Seq<Id>) -> bool {
    a.to_multiset() == b.to_multiset()
}

/// How often `x` occurs in `s`.
pub fn occurrences(s: &Vec<Id>, x: Id) -> (c: usize)
    ensures
        c == s@.to_multiset().count(x),
{
    let mut c: usize = 0;
    let mut i: usize = 0;
    while i < s.len()
        invariant
            i <= s.len(),
            c <= i,
            c == s@.take(i as int).to_multiset().count(x),
        decreases s.len() - i,
    {
        assert(s@.take(i + 1) == s@.take(i as int).push(s@[i as int]));
        if s[i] == x {
            c = c + 1;
        }
        i = i + 1;
    }
    assert(s@.take(s.len() as int) == s@);
    c
}

/// Whether `provided` lists exactly the identifiers of `existing`: the test that a
/// reordering request names every item once and nothing else.
pub fn same_ids(provided: &Vec<Id>, existing: &Vec<Id>) -> (r: bool)
    ensures
        r == same_members(provided@, existing@),
{
    let ghost pa = provided@.to_multiset();
    let ghost ea = existing@.to_multiset();
    if provided.len() != existing.len() {
        assert(pa.len() != ea.len());
        return false;
    }
    let mut i: usize = 0;
    while i < provided.len()
        invariant
            i <= provided.len(),
            pa == provided@.to_multiset(),
            ea == existing@.to_multiset(),
            forall|t: int| 0 <= t < i ==> pa.count(provided@[t]) == ea.count(provided@[t]),
        decreases provided.len() - i,
    {
        if occurrences(provided, provided[i]) != occurrences(existing, provided[i]) {
            return false;
        }
        i = i + 1;
    }
    let mut j: usize = 0;
    while j < existing.len()
        invariant
            j <= existing.len(),
            pa == provided@.to_multiset(),
            ea == existing@.to_multiset(),
            forall|t: int| 0 <= t < j ==> pa.count(existing@[t]) == ea.count(existing@[t]),
        decreases existing.len() - j,
    {
        if occurrences(provided, existing[j]) != occurrences(existing, existing[j]) {
            return false;
        }
        j = j + 1;
    }
    assert forall|x: Id| pa.count(x) == ea.count(x) by {
        if provided@.contains(x) {
            let t = choose|t: int| 0 <= t < provided@.len() && provided@[t] == x;
        } else if existing@.contains(x) {
            let t = choose|t: int| 0 <= t < existing@.len() && existing@[t] == x;
        }
    }
    assert(pa =~= ea);
    true
}

} // verus!

verus! {

/// The place of the last occurrence of `x` in `s`, or -1 when `x` does not occur.
pub open spec fn last_index_of(s: Seq<Id>, x: Id) -> int
    decreases s.len(),
{
    if s.len() == 0 {
        -1
    } else if s.last() == x {
        s.len() - 1
    } else {
        last_index_of(s.drop_last(), x)
    }
}

/// The last occurrence of `x` is an occurrence, and no later place holds `x`.
pub proof fn lemma_last_index_of(s: Seq<Id>, x: Id)
    ensures
        -1 <= last_index_of(s, x) < s.len(),
        s.contains(x) <==> last_index_of(s, x) >= 0,
        last_index_of(s, x) >= 0 ==> s[last_index_of(s, x)] == x,
        forall|t: int| last_index_of(s, x) < t < s.len() ==> s[t] != x,
    decreases s.len(),
{
    if s.len() > 0 {
        let d = s.drop_last();
        lemma_last_index_of(d, x);
        if s.last() != x {
            if s.contains(x) {
                let t = choose|t: int| 0 <= t < s.len() && s[t] == x;
                assert(d[t] == x);
            }
            if d.contains(x) {
                let t = choose|t: int| 0 <= t < d.len() && d[t] == x;
                assert(s[t] == x);
            }
            assert forall|t: int| last_index_of(s, x) < t < s.len() implies s[t] != x by {
                if t < s.len() - 1 {
                    assert(s[t] == d[t]);
                }
            }
        } else {
            assert(s[s.len() - 1] == x);
        }
    }
}

/// The last place of `x` in `s`, searched from the end.
pub fn find_last(s: &Vec<Id>, x: Id) -> (r: Option<usize>)
    ensures
        match r {
            Some(k) => k == last_index_of(s@, x),
            None => last_index_of(s@, x) == -1,
        },
{
    let mut k: usize = s.len();
    assert(s@.take(k as int) == s@);
    while k > 0
        invariant
            k <= s.len(),
            last_index_of(s@, x) == last_index_of(s@.take(k as int), x),
        decreases k,
    {
        assert(s@.take(k as int).drop_last() == s@.take(k - 1));
        if s[k - 1] == x {
            return Some(k - 1);
        }
        k = k - 1;
    }
    None
}

} // verus!
