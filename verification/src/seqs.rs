use vstd::prelude::*;

use crate::ids::Id;

verus! {

/// Filtering commutes with a change of the rows that keeps the filter's verdict.
pub proof fn lemma_filter_map_commute<T>(s: Seq<T>, p: spec_fn(T) -> bool, f: spec_fn(T) -> T)
    requires
        forall|x: T| #[trigger] p(f(x)) == p(x),
    ensures
        s.map_values(f).filter(p) == s.filter(p).map_values(f),
    decreases s.len(),
{
    reveal(Seq::filter);
    if s.len() > 0 {
        lemma_filter_map_commute(s.drop_last(), p, f);
        assert(s.map_values(f).drop_last() =~= s.drop_last().map_values(f));
        assert(p(f(s.last())) == p(s.last()));
        if p(s.last()) {
            assert(s.filter(p).map_values(f) =~= s.drop_last().filter(p).map_values(f).push(f(s.last())));
        } else {
            assert(s.filter(p).map_values(f) =~= s.drop_last().filter(p).map_values(f));
        }
    }
}

/// Every row kept by a filter is a row of the sequence that satisfies the filter.
pub proof fn lemma_filter_member<T>(s: Seq<T>, p: spec_fn(T) -> bool)
    ensures
        forall|i: int|
            0 <= i < s.filter(p).len() ==> p(#[trigger] s.filter(p)[i]) && s.contains(s.filter(p)[i]),
    decreases s.len(),
{
    reveal(Seq::filter);
    if s.len() > 0 {
        lemma_filter_member(s.drop_last(), p);
        let f = s.filter(p);
        let g = s.drop_last().filter(p);
        assert forall|i: int| 0 <= i < f.len() implies p(#[trigger] f[i]) && s.contains(f[i]) by {
            if i < g.len() {
                assert(f[i] == g[i]);
                assert(g.contains(g[i]));
                assert(p(g[i]) && s.drop_last().contains(g[i]));
                let j = choose|j: int| 0 <= j < s.drop_last().len() && s.drop_last()[j] == g[i];
                assert(s[j] == f[i]);
            } else {
                assert(f[i] == s.last());
                assert(s[s.len() - 1] == f[i]);
            }
        }
    }
}

/// Every row of the sequence that satisfies the filter is kept.
pub proof fn lemma_filter_keeps<T>(s: Seq<T>, p: spec_fn(T) -> bool, i: int)
    requires
        0 <= i < s.len(),
        p(s[i]),
    ensures
        s.filter(p).contains(s[i]),
    decreases s.len(),
{
    reveal(Seq::filter);
    if i == s.len() - 1 {
        assert(s.filter(p)[s.filter(p).len() - 1] == s[i]);
    } else {
        lemma_filter_keeps(s.drop_last(), p, i);
        assert(s.drop_last()[i] == s[i]);
        let g = s.drop_last().filter(p);
        let j = choose|j: int| 0 <= j < g.len() && g[j] == s[i];
        assert(s.filter(p)[j] == g[j]);
    }
}

/// Filtering keeps rows with distinct keys distinct.
pub proof fn lemma_filter_distinct<T>(s: Seq<T>, p: spec_fn(T) -> bool, key: spec_fn(T) -> Id)
    requires
        forall|i: int, j: int|
            0 <= i < s.len() && 0 <= j < s.len() && i != j ==> key(s[i]) != key(s[j]),
    ensures
        forall|i: int, j: int|
            0 <= i < s.filter(p).len() && 0 <= j < s.filter(p).len() && i != j ==> key(s.filter(p)[i])
                != key(s.filter(p)[j]),
    decreases s.len(),
{
    reveal(Seq::filter);
    if s.len() > 0 {
        let d = s.drop_last();
        lemma_filter_distinct(d, p, key);
        lemma_filter_member(d, p);
        let f = s.filter(p);
        let g = d.filter(p);
        if p(s.last()) {
            assert forall|i: int, j: int|
                0 <= i < f.len() && 0 <= j < f.len() && i != j implies key(f[i]) != key(f[j]) by {
                if i < g.len() && j < g.len() {
                    assert(f[i] == g[i] && f[j] == g[j]);
                } else if i < g.len() {
                    assert(f[i] == g[i]);
                    assert(d.contains(g[i]));
                    let k = choose|k: int| 0 <= k < d.len() && d[k] == g[i];
                    assert(s[k] == f[i]);
                    assert(f[j] == s[s.len() - 1]);
                } else {
                    assert(f[j] == g[j]);
                    assert(d.contains(g[j]));
                    let k = choose|k: int| 0 <= k < d.len() && d[k] == g[j];
                    assert(s[k] == f[j]);
                    assert(f[i] == s[s.len() - 1]);
                }
            }
        } else {
            assert(f == g);
        }
    }
}

} // verus!

verus! {

/// A filter keeps at most as many rows as there are.
pub proof fn lemma_filter_len<T>(s: Seq<T>, p: spec_fn(T) -> bool)
    ensures
        s.filter(p).len() <= s.len(),
{
    s.lemma_filter_len(p);
}

} // verus!

verus! {

/// A row is kept by a filter exactly when it is a row of the sequence that
/// satisfies the filter.
pub proof fn lemma_filter_contains_iff<T>(s: Seq<T>, p: spec_fn(T) -> bool)
    ensures
        forall|x: T| #[trigger] s.filter(p).contains(x) <==> (s.contains(x) && p(x)),
{
    lemma_filter_member(s, p);
    assert forall|x: T| #[trigger] s.filter(p).contains(x) <==> (s.contains(x) && p(x)) by {
        if s.filter(p).contains(x) {
            let j = choose|j: int| 0 <= j < s.filter(p).len() && s.filter(p)[j] == x;
            assert(p(s.filter(p)[j]) && s.contains(s.filter(p)[j]));
        }
        if s.contains(x) && p(x) {
            let i = choose|i: int| 0 <= i < s.len() && s[i] == x;
            lemma_filter_keeps(s, p, i);
        }
    }
}

} // verus!
