use vstd::prelude::*;

verus! {

/// Places index `j` into `ord`, which is ordered by key, after every entry
/// whose key is at most `keys[j]`: equal keys keep the order of their indices.
pub open spec fn place(keys: Seq<i32>, ord: Seq<usize>, j: usize) -> Seq<usize>
    decreases ord.len(),
{
    if ord.len() == 0 {
        seq![j]
    } else if keys[ord.last() as int] <= keys[j as int] {
        ord.push(j)
    } else {
        place(keys, ord.drop_last(), j).push(ord.last())
    }
}

/// The indices `0..n` of `keys`, ordered by key; equal keys stay in index order.
pub open spec fn ordering(keys: Seq<i32>, n: nat) -> Seq<usize>
    decreases n,
{
    if n == 0 {
        Seq::empty()
    } else {
        place(keys, ordering(keys, (n - 1) as nat), (n - 1) as usize)
    }
}

/// `ord` lists indices whose keys never decrease.
pub open spec fn sorted_by(keys: Seq<i32>, ord: Seq<usize>) -> bool {
    forall|a: int, b: int| 0 <= a < b < ord.len() ==> keys[ord[a] as int] <= keys[ord[b] as int]
}

/// `ord` lists each of the indices `0..n` exactly once.
pub open spec fn is_index_permutation(ord: Seq<usize>, n: nat) -> bool {
    &&& ord.len() == n
    &&& ord.no_duplicates()
    &&& forall|x: usize| ord.contains(x) <==> x < n
}

/// Inserting where the keys change from "at most" to "greater" is what `place` does.
proof fn lemma_place_is_insert(keys: Seq<i32>, ord: Seq<usize>, j: usize, p: int)
    requires
        0 <= p <= ord.len(),
        forall|t: int| p <= t < ord.len() ==> keys[ord[t] as int] > keys[j as int],
        p > 0 ==> keys[ord[p - 1] as int] <= keys[j as int],
    ensures
        place(keys, ord, j) == ord.insert(p, j),
    decreases ord.len(),
{
    if ord.len() == 0 {
        assert(ord.insert(p, j) =~= seq![j]);
    } else if p == ord.len() {
        assert(ord.insert(p, j) =~= ord.push(j));
    } else {
        lemma_place_is_insert(keys, ord.drop_last(), j, p);
        assert(ord.drop_last().insert(p, j).push(ord.last()) =~= ord.insert(p, j));
    }
}

/// `place` adds exactly `j`, and keeps the entries ordered by key.
proof fn lemma_place_props(keys: Seq<i32>, ord: Seq<usize>, j: usize)
    ensures
        place(keys, ord, j).len() == ord.len() + 1,
        forall|x: usize| #[trigger] place(keys, ord, j).contains(x) <==> (ord.contains(x) || x == j),
        ord.no_duplicates() && !ord.contains(j) ==> place(keys, ord, j).no_duplicates(),
        sorted_by(keys, ord) ==> sorted_by(keys, place(keys, ord, j)),
    decreases ord.len(),
{
    let r = place(keys, ord, j);
    if ord.len() == 0 {
        assert forall|x: usize| r.contains(x) <==> (ord.contains(x) || x == j) by {
            if r.contains(x) {
                assert(r[0] == j);
            }
            if x == j {
                assert(r[0] == j);
            }
        }
    } else if keys[ord.last() as int] <= keys[j as int] {
        assert forall|x: usize| r.contains(x) <==> (ord.contains(x) || x == j) by {
            if r.contains(x) {
                let t = choose|t: int| 0 <= t < r.len() && r[t] == x;
                if t < ord.len() {
                    assert(ord[t] == x);
                }
            }
            if ord.contains(x) {
                let t = choose|t: int| 0 <= t < ord.len() && ord[t] == x;
                assert(r[t] == x);
            }
            if x == j {
                assert(r[ord.len() as int] == j);
            }
        }
        if ord.no_duplicates() && !ord.contains(j) {
            assert forall|a: int, b: int| 0 <= a < r.len() && 0 <= b < r.len() && a != b implies r[a]
                != r[b] by {
                if a == ord.len() {
                    assert(ord.contains(r[b]));
                } else if b == ord.len() {
                    assert(ord.contains(r[a]));
                }
            }
        }
        if sorted_by(keys, ord) {
            assert forall|a: int, b: int| 0 <= a < b < r.len() implies keys[r[a] as int]
                <= keys[r[b] as int] by {
                if b == ord.len() {
                    if a < ord.len() - 1 {
                        assert(keys[ord[a] as int] <= keys[ord[ord.len() - 1] as int]);
                    }
                }
            }
        }
    } else {
        let d = ord.drop_last();
        let q = place(keys, d, j);
        lemma_place_props(keys, d, j);
        assert(r == q.push(ord.last()));
        assert forall|x: usize| r.contains(x) <==> (ord.contains(x) || x == j) by {
            if r.contains(x) {
                let t = choose|t: int| 0 <= t < r.len() && r[t] == x;
                if t < q.len() {
                    assert(q[t] == x);
                    assert(q.contains(x));
                    if d.contains(x) {
                        let u = choose|u: int| 0 <= u < d.len() && d[u] == x;
                        assert(ord[u] == x);
                    }
                } else {
                    assert(ord[ord.len() - 1] == x);
                }
            }
            if ord.contains(x) {
                let t = choose|t: int| 0 <= t < ord.len() && ord[t] == x;
                if t < d.len() {
                    assert(d[t] == x);
                    assert(q.contains(x));
                    let u = choose|u: int| 0 <= u < q.len() && q[u] == x;
                    assert(r[u] == x);
                } else {
                    assert(r[q.len() as int] == x);
                }
            }
            if x == j {
                assert(q.contains(j));
                let u = choose|u: int| 0 <= u < q.len() && q[u] == j;
                assert(r[u] == j);
            }
        }
        if ord.no_duplicates() && !ord.contains(j) {
            assert(d.no_duplicates());
            assert(!d.contains(j)) by {
                if d.contains(j) {
                    let u = choose|u: int| 0 <= u < d.len() && d[u] == j;
                    assert(ord[u] == j);
                }
            }
            assert(!q.contains(ord.last())) by {
                if q.contains(ord.last()) {
                    if d.contains(ord.last()) {
                        let u = choose|u: int| 0 <= u < d.len() && d[u] == ord.last();
                        assert(ord[u] == ord[ord.len() - 1]);
                    } else {
                        assert(ord[ord.len() - 1] == j);
                        assert(ord.contains(j));
                    }
                }
            }
            assert forall|a: int, b: int| 0 <= a < r.len() && 0 <= b < r.len() && a != b implies r[a]
                != r[b] by {
                if a == q.len() {
                    assert(q.contains(r[b]));
                } else if b == q.len() {
                    assert(q.contains(r[a]));
                }
            }
        }
        if sorted_by(keys, ord) {
            assert(sorted_by(keys, d));
            assert forall|a: int, b: int| 0 <= a < b < r.len() implies keys[r[a] as int]
                <= keys[r[b] as int] by {
                if b == q.len() {
                    let x = q[a];
                    assert(q.contains(x));
                    if d.contains(x) {
                        let u = choose|u: int| 0 <= u < d.len() && d[u] == x;
                        assert(ord[u] == x);
                        assert(keys[ord[u] as int] <= keys[ord[ord.len() - 1] as int]);
                    }
                }
            }
        }
    }
}

/// The ordering of `n` indices lists each of them once, with keys that never decrease.
pub proof fn lemma_ordering_props(keys: Seq<i32>, n: nat)
    requires
        n <= usize::MAX,
    ensures
        is_index_permutation(ordering(keys, n), n),
        sorted_by(keys, ordering(keys, n)),
    decreases n,
{
    if n > 0 {
        let prev = ordering(keys, (n - 1) as nat);
        lemma_ordering_props(keys, (n - 1) as nat);
        lemma_place_props(keys, prev, (n - 1) as usize);
        assert(!prev.contains((n - 1) as usize));
    }
}

/// `place` reads only the keys of `j` and of the entries of `ord`.
proof fn lemma_place_same_keys(k1: Seq<i32>, k2: Seq<i32>, ord: Seq<usize>, j: usize)
    requires
        k1[j as int] == k2[j as int],
        forall|t: int| 0 <= t < ord.len() ==> k1[ord[t] as int] == k2[ord[t] as int],
    ensures
        place(k1, ord, j) == place(k2, ord, j),
    decreases ord.len(),
{
    if ord.len() > 0 {
        lemma_place_same_keys(k1, k2, ord.drop_last(), j);
    }
}

/// The ordering of the first `n` indices reads only the first `n` keys.
pub proof fn lemma_ordering_same_prefix(k1: Seq<i32>, k2: Seq<i32>, n: nat)
    requires
        n <= usize::MAX,
        n <= k1.len(),
        n <= k2.len(),
        forall|i: int| 0 <= i < n ==> k1[i] == k2[i],
    ensures
        ordering(k1, n) == ordering(k2, n),
    decreases n,
{
    if n > 0 {
        let m = (n - 1) as nat;
        lemma_ordering_same_prefix(k1, k2, m);
        lemma_ordering_props(k1, m);
        let ord = ordering(k1, m);
        assert forall|t: int| 0 <= t < ord.len() implies k1[ord[t] as int] == k2[ord[t] as int] by {
            assert(ord.contains(ord[t]));
        }
        lemma_place_same_keys(k1, k2, ord, (n - 1) as usize);
    }
}

/// An index whose key is at least every earlier key comes last.
pub proof fn lemma_ordering_push_max(keys: Seq<i32>, n: nat)
    requires
        n < keys.len(),
        n < usize::MAX,
        forall|i: int| 0 <= i < n ==> keys[i] <= keys[n as int],
    ensures
        ordering(keys, n + 1) == ordering(keys, n).push(n as usize),
{
    let ord = ordering(keys, n);
    lemma_ordering_props(keys, n);
    if ord.len() > 0 {
        assert(ord.contains(ord.last()));
    }
}

/// A strictly increasing sequence of `len` values in `0..len` is `0, 1, ..., len - 1`.
proof fn lemma_tight_below(v: Seq<int>, k: int)
    requires
        0 <= k < v.len(),
        forall|a: int, b: int| 0 <= a < b < v.len() ==> v[a] < v[b],
        forall|a: int| 0 <= a < v.len() ==> 0 <= v[a],
    ensures
        v[k] >= k,
    decreases k,
{
    if k > 0 {
        lemma_tight_below(v, k - 1);
    }
}

proof fn lemma_tight_above(v: Seq<int>, k: int)
    requires
        0 <= k < v.len(),
        forall|a: int, b: int| 0 <= a < b < v.len() ==> v[a] < v[b],
        forall|a: int| 0 <= a < v.len() ==> v[a] < v.len(),
    ensures
        v[k] <= k,
    decreases v.len() - k,
{
    if k < v.len() - 1 {
        lemma_tight_above(v, k + 1);
    }
}

/// When the `n` keys are the distinct values `0..n`, the ordering puts the index
/// with key `k` at place `k`.
pub proof fn lemma_ordering_of_permutation(keys: Seq<i32>)
    requires
        keys.len() <= usize::MAX,
        forall|i: int| 0 <= i < keys.len() ==> 0 <= #[trigger] keys[i] < keys.len(),
        forall|i: int, j: int| 0 <= i < keys.len() && 0 <= j < keys.len() && i != j ==> keys[i] != keys[j],
    ensures
        forall|k: int| 0 <= k < keys.len() ==> keys[#[trigger] ordering(keys, keys.len())[k] as int] == k,
{
    let n = keys.len();
    let ord = ordering(keys, n);
    lemma_ordering_props(keys, n);
    let v = Seq::new(n, |k: int| keys[ord[k] as int] as int);
    assert forall|k: int| 0 <= k < n implies ord[k] < n by {
        assert(ord.contains(ord[k]));
    }
    assert forall|a: int, b: int| 0 <= a < b < v.len() implies v[a] < v[b] by {
        assert(ord[a] != ord[b]);
        assert(keys[ord[a] as int] <= keys[ord[b] as int]);
    }
    assert forall|k: int| 0 <= k < n implies keys[ord[k] as int] == k by {
        lemma_tight_below(v, k);
        lemma_tight_above(v, k);
    }
}

/// The indices of `keys`, ordered by key, equal keys in index order.
pub fn order_by_position(keys: &Vec<i32>) -> (ord: Vec<usize>)
    ensures
        ord@ == ordering(keys@, keys@.len()),
{
    let n: usize = keys.len();
    let mut ord: Vec<usize> = Vec::new();
    let mut i: usize = 0;
    while i < n
        invariant
            n == keys.len(),
            i <= n,
            ord@ == ordering(keys@, i as nat),
        decreases n - i,
    {
        proof {
            lemma_ordering_props(keys@, i as nat);
        }
        assert forall|t: int| 0 <= t < ord.len() implies ord@[t] < i by {
            assert(ord@.contains(ord@[t]));
        }
        let ki: i32 = keys[i];
        let mut p: usize = ord.len();
        while p > 0 && keys[ord[p - 1]] > ki
            invariant
                n == keys.len(),
                i < n,
                ki == keys@[i as int],
                p <= ord.len(),
                forall|t: int| 0 <= t < ord.len() ==> ord@[t] < i,
                forall|t: int| p <= t < ord.len() ==> keys@[ord@[t] as int] > ki,
            decreases p,
        {
            p = p - 1;
        }
        proof {
            lemma_place_is_insert(keys@, ord@, i, p as int);
        }
        ord.insert(p, i);
        i = i + 1;
    }
    ord
}

} // verus!

verus! {

/// An index whose key is greater than every other key comes last.
pub proof fn lemma_ordering_last_is_max(keys: Seq<i32>, m: int)
    requires
        keys.len() <= usize::MAX,
        0 <= m < keys.len(),
        forall|i: int| 0 <= i < keys.len() && i != m ==> keys[i] < keys[m],
    ensures
        ordering(keys, keys.len()).len() == keys.len(),
        ordering(keys, keys.len()).last() == m,
{
    let n = keys.len();
    let ord = ordering(keys, n);
    lemma_ordering_props(keys, n);
    assert(ord.contains(m as usize));
    let p = choose|p: int| 0 <= p < ord.len() && ord[p] == m as usize;
    let x = ord.last();
    assert(ord.contains(x));
    if x as int != m {
        assert(p < ord.len() - 1);
        assert(keys[ord[p] as int] <= keys[ord[ord.len() - 1] as int]);
    }
}

} // verus!
