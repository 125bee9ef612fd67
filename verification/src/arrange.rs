use vstd::prelude::*;

use crate::order::{ordering, order_by_position};
use crate::rows::Row;

verus! {

/// `rows` in the order of their `keys` (positions); rows with equal keys keep
/// their order.
pub open spec fn arranged<T>(rows: Seq<T>, keys: Seq<i32>) -> Seq<T> {
    let ord = ordering(keys, keys.len());
    Seq::new(ord.len(), |k: int| rows[ord[k] as int])
}

/// The greatest of a non-empty list of positions.
pub open spec fn max_position(s: Seq<i32>) -> int
    decreases s.len(),
{
    if s.len() <= 1 {
        s[0] as int
    } else {
        let m = max_position(s.drop_last());
        if s.last() > m {
            s.last() as int
        } else {
            m
        }
    }
}

/// The position that a new item takes: one past the greatest position, or 0
/// when there is none.
pub open spec fn next_position(s: Seq<i32>) -> int {
    if s.len() == 0 {
        0
    } else {
        max_position(s) + 1
    }
}

/// The greatest position is one of the positions and at least each of them.
pub proof fn lemma_max_position(s: Seq<i32>)
    requires
        s.len() > 0,
    ensures
        forall|i: int| 0 <= i < s.len() ==> s[i] <= max_position(s),
        exists|i: int| 0 <= i < s.len() && s[i] == max_position(s),
    decreases s.len(),
{
    if s.len() > 1 {
        lemma_max_position(s.drop_last());
        let i = choose|i: int| 0 <= i < s.drop_last().len() && s.drop_last()[i] == max_position(s.drop_last());
        if s.last() > max_position(s.drop_last()) {
            assert(s[s.len() - 1] == max_position(s));
        } else {
            assert(s[i] == max_position(s));
        }
        assert forall|j: int| 0 <= j < s.len() implies s[j] <= max_position(s) by {
            if j < s.len() - 1 {
                assert(s[j] == s.drop_last()[j]);
            }
        }
    } else {
        assert(s[0] == max_position(s));
    }
}

/// The next position is greater than every position, and at least 0.
pub proof fn lemma_next_position(s: Seq<i32>)
    ensures
        forall|i: int| 0 <= i < s.len() ==> s[i] < next_position(s),
        next_position(s) >= 0 || s.len() > 0,
        next_position(s) <= i32::MAX + 1,
{
    if s.len() > 0 {
        lemma_max_position(s);
    }
}

/// The next position of the given positions, or `None` when it does not fit
/// an `i32`.
pub fn compute_next_position(s: &Vec<i32>) -> (r: Option<i32>)
    ensures
        match r {
            Some(p) => p == next_position(s@),
            None => next_position(s@) > i32::MAX,
        },
{
    if s.len() == 0 {
        return Some(0);
    }
    let mut m: i32 = s[0];
    let mut i: usize = 1;
    while i < s.len()
        invariant
            1 <= i <= s.len(),
            m == max_position(s@.take(i as int)),
        decreases s.len() - i,
    {
        assert(s@.take(i + 1).drop_last() == s@.take(i as int));
        if s[i] > m {
            m = s[i];
        }
        i = i + 1;
    }
    assert(s@.take(s.len() as int) == s@);
    if m == i32::MAX {
        None
    } else {
        Some(m + 1)
    }
}

/// The rows in the order of their positions.
pub fn arrange<T: Row>(rows: &Vec<T>, keys: &Vec<i32>) -> (r: Vec<T>)
    requires
        rows.len() == keys.len(),
    ensures
        r@ == arranged(rows@, keys@),
{
    let ord = order_by_position(keys);
    proof {
        crate::order::lemma_ordering_props(keys@, keys@.len());
    }
    let mut r: Vec<T> = Vec::new();
    let mut k: usize = 0;
    while k < ord.len()
        invariant
            k <= ord.len(),
            rows.len() == keys.len(),
            ord@ == ordering(keys@, keys@.len()),
            crate::order::is_index_permutation(ord@, keys@.len()),
            r@ == Seq::new(k as nat, |t: int| rows@[ord@[t] as int]),
        decreases ord.len() - k,
    {
        assert(ord@.contains(ord@[k as int]));
        let x = rows[ord[k]].duplicate();
        r.push(x);
        k = k + 1;
        assert(r@ =~= Seq::new(k as nat, |t: int| rows@[ord@[t] as int]));
    }
    assert(r@ =~= arranged(rows@, keys@));
    r
}

} // verus!

verus! {

/// Arranging rows by their keys keeps exactly the same rows.
pub proof fn lemma_arranged_members<T>(rows: Seq<T>, keys: Seq<i32>)
    requires
        keys.len() == rows.len(),
        rows.len() <= usize::MAX,
    ensures
        forall|x: T| #[trigger] arranged(rows, keys).contains(x) <==> rows.contains(x),
{
    crate::order::lemma_ordering_props(keys, keys.len());
    let ord = ordering(keys, keys.len());
    let a = arranged(rows, keys);
    assert forall|x: T| #[trigger] a.contains(x) <==> rows.contains(x) by {
        if a.contains(x) {
            let k = choose|k: int| 0 <= k < a.len() && a[k] == x;
            assert(ord.contains(ord[k]));
            assert(rows[ord[k] as int] == x);
        }
        if rows.contains(x) {
            let i = choose|i: int| 0 <= i < rows.len() && rows[i] == x;
            assert(ord.contains(i as usize));
            let k = choose|k: int| 0 <= k < ord.len() && ord[k] == i as usize;
            assert(a[k] == x);
        }
    }
}

} // verus!
