use vstd::prelude::*;

use crate::catalog::{only_books_differ, same_contents, Catalog};
use crate::catalog::books::{book_id_list, book_placed, on_shelf, place_book};
use crate::catalog::removal::contains_id;
use crate::catalog::shelves::shelf_id_list;
use crate::error::{AppError, BAD_REQUEST};
use crate::ids::{find_last, last_index_of, lemma_last_index_of, same_ids, same_members, Id};
use crate::rows::{book_ids, book_positions, shelf_ids, Book, Row};

verus! {

/// One shelf of a bookcase with the books it should hold, in order.
pub struct ShelfBookIds {
    pub id: Id,
    pub book_ids: Vec<Id>,
}

/// The shelves named in a plan, in order.
pub open spec fn plan_shelf_ids(plan: Seq<ShelfBookIds>) -> Seq<Id> {
    Seq::new(plan.len(), |i: int| plan[i].id)
}

/// The books named in a plan, shelf after shelf.
pub open spec fn plan_book_ids(plan: Seq<ShelfBookIds>) -> Seq<Id>
    decreases plan.len(),
{
    if plan.len() == 0 {
        Seq::empty()
    } else {
        plan_book_ids(plan.drop_last()) + plan.last().book_ids@
    }
}

/// Where a plan puts the book `x`: the shelf and place of its last mention.
pub open spec fn placement(plan: Seq<ShelfBookIds>, x: Id) -> Option<(Id, int)>
    decreases plan.len(),
{
    if plan.len() == 0 {
        None
    } else if plan.last().book_ids@.contains(x) {
        Some((plan.last().id, last_index_of(plan.last().book_ids@, x)))
    } else {
        placement(plan.drop_last(), x)
    }
}

/// A book after the plan was carried out.
pub open spec fn rearranged(plan: Seq<ShelfBookIds>) -> spec_fn(Book) -> Book {
    |k: Book|
        match placement(plan, k.id) {
            Some(at) => book_placed(k, at.0, at.1 as i32),
            None => k,
        }
}

/// The books that stand on one of the shelves `ids`.
pub open spec fn on_shelves(ids: Seq<Id>) -> spec_fn(Book) -> bool {
    |k: Book| ids.contains(k.shelf_id)
}

impl Catalog {
    /// The books on the shelves of the bookcase `bookcase_id`.
    pub open spec fn bookcase_books(&self, bookcase_id: Id) -> Seq<Book> {
        self.books@.filter(on_shelves(shelf_ids(self.bookcase_shelves(bookcase_id))))
    }

    /// Rearranges all books of the bookcase `bookcase_id` of `user` at once: the
    /// plan must name each shelf of the bookcase exactly once ("Provided shelf IDs
    /// do not match the bookcase's shelves"; a bookcase that is not theirs has no
    /// shelves) and each book of the bookcase exactly once ("Provided book IDs do
    /// not match the bookcase's books"); both refusals are answered 400 and change
    /// nothing. Otherwise the book named at place `k` of a shelf moves there at
    /// position `k`.
    pub fn reorder_bookcase_books(&mut self, user: Id, bookcase_id: Id, plan: &Vec<ShelfBookIds>) -> (r:
        Result<(), AppError>)
        ensures
            ({
                let shelves_ok = same_members(
                    plan_shelf_ids(plan@),
                    if old(self).owns_bookcase(user, bookcase_id) {
                        shelf_ids(old(self).bookcase_shelves(bookcase_id))
                    } else {
                        Seq::empty()
                    },
                );
                let books_ok = same_members(plan_book_ids(plan@), book_ids(old(self).bookcase_books(bookcase_id)));
                &&& r is Ok <==> shelves_ok && books_ok
                &&& match r {
                    Ok(_) => {
                        &&& final(self).books@ == old(self).books@.map_values(rearranged(plan@))
                        &&& only_books_differ(*old(self), *final(self))
                        &&& book_ids(final(self).books@) == book_ids(old(self).books@)
                        &&& old(self).wf() ==> final(self).wf()
                    },
                    Err(e) => {
                        &&& e.status == BAD_REQUEST
                        &&& !shelves_ok ==> e.message@ == "Provided shelf IDs do not match the bookcase's shelves"@
                        &&& shelves_ok ==> e.message@ == "Provided book IDs do not match the bookcase's books"@
                        &&& same_contents(*old(self), *final(self))
                    },
                }
            }),
    {
        let existing_shelves: Vec<Id> = if self.check_owns_bookcase(user, bookcase_id) {
            let rows = self.collect_bookcase_shelves(bookcase_id);
            shelf_id_list(&rows)
        } else {
            let v: Vec<Id> = Vec::new();
            v
        };
        let provided_shelves = plan_shelf_id_list(plan);
        if !same_ids(&provided_shelves, &existing_shelves) {
            return Err(
                AppError::bad_request("Provided shelf IDs do not match the bookcase's shelves".to_owned()),
            );
        }
        let all_rows = self.collect_bookcase_shelves(bookcase_id);
        let all_shelves = shelf_id_list(&all_rows);
        let mut present: Vec<Book> = Vec::new();
        let mut i: usize = 0;
        while i < self.books.len()
            invariant
                i <= self.books.len(),
                all_shelves@ == shelf_ids(self.bookcase_shelves(bookcase_id)),
                present@ == self.books@.take(i as int).filter(on_shelves(all_shelves@)),
            decreases self.books.len() - i,
        {
            proof {
                let s = self.books@;
                assert(s.take(i + 1) == s.take(i as int).push(s[i as int]));
                s.take(i as int).lemma_filter_push(s[i as int], on_shelves(all_shelves@));
            }
            if contains_id(&all_shelves, self.books[i].shelf_id) {
                present.push(self.books[i].duplicate());
            }
            i = i + 1;
        }
        assert(self.books@.take(self.books.len() as int) == self.books@);
        let existing_books = book_id_list(&present);
        let provided_books = plan_book_id_list(plan);
        if !same_ids(&provided_books, &existing_books) {
            return Err(
                AppError::bad_request("Provided book IDs do not match the bookcase's books".to_owned()),
            );
        }
        let ghost before = self.books@;
        let mut j: usize = 0;
        while j < self.books.len()
            invariant
                j <= self.books.len(),
                self.books@.len() == before.len(),
                before == old(self).books@,
                forall|t: int| 0 <= t < j ==> self.books@[t] == old(self).books@.map_values(rearranged(plan@))[t],
                forall|t: int| j <= t < before.len() ==> self.books@[t] == before[t],
                self.users@ == old(self).users@,
                self.accounts@ == old(self).accounts@,
                self.bookcases@ == old(self).bookcases@,
                self.shelves@ == old(self).shelves@,
            decreases before.len() - j,
        {
            match find_placement(plan, self.books[j].id) {
                Some(at) => {
                    let row = self.books[j].duplicate();
                    self.books.set(j, place_book(row, at.0, at.1 as i32));
                },
                None => {},
            }
            j = j + 1;
        }
        assert(self.books@ =~= old(self).books@.map_values(rearranged(plan@)));
        assert(book_ids(self.books@) =~= book_ids(old(self).books@));
        Ok(())
    }
}

/// The shelves named in a plan, in order.
pub fn plan_shelf_id_list(plan: &Vec<ShelfBookIds>) -> (r: Vec<Id>)
    ensures
        r@ == plan_shelf_ids(plan@),
{
    let mut r: Vec<Id> = Vec::new();
    let mut i: usize = 0;
    while i < plan.len()
        invariant
            i <= plan.len(),
            r@ =~= plan_shelf_ids(plan@.take(i as int)),
        decreases plan.len() - i,
    {
        r.push(plan[i].id);
        i = i + 1;
    }
    assert(plan@.take(plan.len() as int) == plan@);
    r
}

/// The books named in a plan, shelf after shelf.
pub fn plan_book_id_list(plan: &Vec<ShelfBookIds>) -> (r: Vec<Id>)
    ensures
        r@ == plan_book_ids(plan@),
{
    let mut r: Vec<Id> = Vec::new();
    let mut i: usize = 0;
    while i < plan.len()
        invariant
            i <= plan.len(),
            r@ == plan_book_ids(plan@.take(i as int)),
        decreases plan.len() - i,
    {
        assert(plan@.take(i + 1).drop_last() == plan@.take(i as int));
        let ids = &plan[i].book_ids;
        let ghost start = r@;
        let mut k: usize = 0;
        while k < ids.len()
            invariant
                k <= ids.len(),
                r@ == start + ids@.take(k as int),
            decreases ids.len() - k,
        {
            r.push(ids[k]);
            k = k + 1;
            assert(r@ =~= start + ids@.take(k as int));
        }
        assert(ids@.take(ids.len() as int) == ids@);
        i = i + 1;
    }
    assert(plan@.take(plan.len() as int) == plan@);
    r
}

/// Where the plan puts the book `x`, searched from the last shelf.
pub fn find_placement(plan: &Vec<ShelfBookIds>, x: Id) -> (r: Option<(Id, usize)>)
    ensures
        match r {
            Some(at) => placement(plan@, x) == Some((at.0, at.1 as int)),
            None => placement(plan@, x) is None,
        },
{
    let mut t: usize = plan.len();
    assert(plan@.take(t as int) == plan@);
    while t > 0
        invariant
            t <= plan.len(),
            placement(plan@, x) == placement(plan@.take(t as int), x),
        decreases t,
    {
        assert(plan@.take(t as int).drop_last() == plan@.take(t - 1));
        assert(plan@.take(t as int).last() == plan@[t - 1]);
        match find_last(&plan[t - 1].book_ids, x) {
            Some(k) => {
                proof {
                    lemma_last_index_of(plan@[t - 1].book_ids@, x);
                }
                return Some((plan[t - 1].id, k));
            },
            None => {
                proof {
                    lemma_last_index_of(plan@[t - 1].book_ids@, x);
                }
            },
        }
        t = t - 1;
    }
    None
}

} // verus!

verus! {

/// A book is named in a plan exactly when some shelf of the plan names it.
proof fn lemma_plan_member(plan: Seq<ShelfBookIds>, x: Id)
    ensures
        plan_book_ids(plan).contains(x) <==> exists|t: int|
            0 <= t < plan.len() && (#[trigger] plan[t]).book_ids@.contains(x),
    decreases plan.len(),
{
    if plan.len() > 0 {
        let d = plan.drop_last();
        lemma_plan_member(d, x);
        let a = plan_book_ids(d);
        let b = plan.last().book_ids@;
        assert(plan_book_ids(plan) == a + b);
        if plan_book_ids(plan).contains(x) {
            let i = choose|i: int| 0 <= i < (a + b).len() && (a + b)[i] == x;
            if i < a.len() {
                assert(a[i] == x);
                let t = choose|t: int| 0 <= t < d.len() && (#[trigger] d[t]).book_ids@.contains(x);
                assert(plan[t] == d[t]);
            } else {
                assert(b[i - a.len()] == x);
                assert(plan[plan.len() - 1].book_ids@.contains(x));
            }
        }
        if exists|t: int| 0 <= t < plan.len() && (#[trigger] plan[t]).book_ids@.contains(x) {
            let t = choose|t: int| 0 <= t < plan.len() && (#[trigger] plan[t]).book_ids@.contains(x);
            if t < plan.len() - 1 {
                assert(d[t] == plan[t]);
                assert(a.contains(x));
                let i = choose|i: int| 0 <= i < a.len() && a[i] == x;
                assert((a + b)[i] == x);
            } else {
                let i = choose|i: int| 0 <= i < b.len() && b[i] == x;
                assert((a + b)[a.len() + i] == x);
            }
        }
    }
}

/// When a plan names no book twice, each shelf names each of its books once and
/// no two shelves name the same book.
proof fn lemma_plan_distinct(plan: Seq<ShelfBookIds>)
    requires
        plan_book_ids(plan).no_duplicates(),
    ensures
        forall|t: int| 0 <= t < plan.len() ==> (#[trigger] plan[t]).book_ids@.no_duplicates(),
        forall|t: int, u: int, x: Id|
            #![trigger plan[t].book_ids@.contains(x), plan[u].book_ids@.contains(x)]
            0 <= t < plan.len() && 0 <= u < plan.len() && t != u && plan[t].book_ids@.contains(x)
                ==> !plan[u].book_ids@.contains(x),
    decreases plan.len(),
{
    if plan.len() > 0 {
        let d = plan.drop_last();
        let a = plan_book_ids(d);
        let b = plan.last().book_ids@;
        let c = a + b;
        assert(plan_book_ids(plan) == c);
        assert(a.no_duplicates()) by {
            assert forall|i: int, j: int| 0 <= i < a.len() && 0 <= j < a.len() && i != j implies a[i] != a[j] by {
                assert(c[i] == a[i] && c[j] == a[j]);
            }
        }
        assert(b.no_duplicates()) by {
            assert forall|i: int, j: int| 0 <= i < b.len() && 0 <= j < b.len() && i != j implies b[i] != b[j] by {
                assert(c[a.len() + i] == b[i] && c[a.len() + j] == b[j]);
            }
        }
        lemma_plan_distinct(d);
        assert forall|x: Id| a.contains(x) implies !b.contains(x) by {
            if b.contains(x) {
                let i = choose|i: int| 0 <= i < a.len() && a[i] == x;
                let j = choose|j: int| 0 <= j < b.len() && b[j] == x;
                assert(c[i] == x && c[a.len() + j] == x);
            }
        }
        assert forall|t: int| 0 <= t < plan.len() implies (#[trigger] plan[t]).book_ids@.no_duplicates() by {
            if t < plan.len() - 1 {
                assert(plan[t] == d[t]);
            }
        }
        assert forall|t: int, u: int, x: Id|
            #![trigger plan[t].book_ids@.contains(x), plan[u].book_ids@.contains(x)]
            0 <= t < plan.len() && 0 <= u < plan.len() && t != u && plan[t].book_ids@.contains(x)
                implies !plan[u].book_ids@.contains(x) by {
            if t < plan.len() - 1 && u < plan.len() - 1 {
                assert(plan[t] == d[t] && plan[u] == d[u]);
            } else if t < plan.len() - 1 {
                assert(plan[t] == d[t]);
                lemma_plan_member(d, x);
                assert(a.contains(x));
            } else {
                assert(plan[u] == d[u]);
                if plan[u].book_ids@.contains(x) {
                    lemma_plan_member(d, x);
                    assert(a.contains(x));
                }
            }
        }
    }
}

/// A book named by shelf `t` of a plan in which no book is named twice is placed
/// on that shelf, at the place where it is named.
proof fn lemma_placement_of_member(plan: Seq<ShelfBookIds>, t: int, x: Id)
    requires
        0 <= t < plan.len(),
        plan[t].book_ids@.contains(x),
        forall|t1: int, u: int, y: Id|
            #![trigger plan[t1].book_ids@.contains(y), plan[u].book_ids@.contains(y)]
            0 <= t1 < plan.len() && 0 <= u < plan.len() && t1 != u && plan[t1].book_ids@.contains(y)
                ==> !plan[u].book_ids@.contains(y),
    ensures
        placement(plan, x) == Some((plan[t].id, last_index_of(plan[t].book_ids@, x))),
    decreases plan.len(),
{
    if t < plan.len() - 1 {
        let d = plan.drop_last();
        assert(!plan[plan.len() - 1].book_ids@.contains(x));
        assert(d[t] == plan[t]);
        assert forall|t1: int, u: int, y: Id|
            #![trigger d[t1].book_ids@.contains(y), d[u].book_ids@.contains(y)]
            0 <= t1 < d.len() && 0 <= u < d.len() && t1 != u && d[t1].book_ids@.contains(y)
                implies !d[u].book_ids@.contains(y) by {
            assert(d[t1] == plan[t1] && d[u] == plan[u]);
        }
        lemma_placement_of_member(d, t, x);
    }
}

/// A book that a plan does not name is not placed.
proof fn lemma_placement_of_other(plan: Seq<ShelfBookIds>, x: Id)
    requires
        !plan_book_ids(plan).contains(x),
    ensures
        placement(plan, x) is None,
    decreases plan.len(),
{
    if plan.len() > 0 {
        lemma_plan_member(plan, x);
        lemma_plan_member(plan.drop_last(), x);
        if plan.drop_last().len() > 0 && plan_book_ids(plan.drop_last()).contains(x) {
            let t = choose|t: int|
                0 <= t < plan.drop_last().len() && (#[trigger] plan.drop_last()[t]).book_ids@.contains(x);
            assert(plan[t] == plan.drop_last()[t]);
        }
        assert(!plan[plan.len() - 1].book_ids@.contains(x));
        lemma_placement_of_other(plan.drop_last(), x);
    }
}

/// Two lists with the same members, one without repetitions, has none either.
proof fn lemma_same_members_no_duplicates(a: Seq<Id>, b: Seq<Id>)
    requires
        same_members(a, b),
        b.no_duplicates(),
    ensures
        a.no_duplicates(),
{
    b.lemma_multiset_has_no_duplicates();
    a.lemma_multiset_has_no_duplicates_conv();
}

/// Two lists with the same members hold the same identifiers.
proof fn lemma_same_members_contains(a: Seq<Id>, b: Seq<Id>, x: Id)
    requires
        same_members(a, b),
    ensures
        a.contains(x) <==> b.contains(x),
{
    broadcast use vstd::seq_lib::group_to_multiset_ensures;

    assert(a.to_multiset().count(x) == b.to_multiset().count(x));
}

} // verus!

verus! {

/// After a whole bookcase was rearranged, each shelf of the plan lists exactly the
/// books the plan named for it, in that order.
pub proof fn lemma_rearrange_then_list(
    before: Catalog,
    after: Catalog,
    bookcase_id: Id,
    plan: Seq<ShelfBookIds>,
    t: int,
)
    requires
        before.wf(),
        same_members(plan_shelf_ids(plan), shelf_ids(before.bookcase_shelves(bookcase_id))),
        same_members(plan_book_ids(plan), book_ids(before.bookcase_books(bookcase_id))),
        after.books@ == before.books@.map_values(rearranged(plan)),
        0 <= t < plan.len(),
        plan[t].book_ids@.len() <= i32::MAX + 1,
    ensures
        book_ids(after.book_listing(plan[t].id)) == plan[t].book_ids@,
{
    let b = before.books@;
    let a = after.books@;
    let sid = plan[t].id;
    let l = plan[t].book_ids@;
    let f = plan_book_ids(plan);
    let sh = plan_shelf_ids(plan);
    let bs = before.bookcase_shelves(bookcase_id);
    let inb = on_shelves(shelf_ids(bs));
    let bb = before.bookcase_books(bookcase_id);
    crate::catalog::lemma_filter_shelves_wf(before.shelves@, crate::catalog::shelves::in_bookcase(bookcase_id));
    lemma_same_members_no_duplicates(sh, shelf_ids(bs));
    crate::catalog::lemma_filter_books_wf(b, inb);
    lemma_same_members_no_duplicates(f, book_ids(bb));
    lemma_plan_distinct(plan);
    assert(sh[t] == sid);
    lemma_same_members_contains(sh, shelf_ids(bs), sid);
    crate::seqs::lemma_filter_member(b, inb);
    // Where each book ends up.
    assert forall|j: int| 0 <= j < a.len() implies {
        &&& (#[trigger] a[j]).id == b[j].id
        &&& (a[j].shelf_id == sid <==> l.contains(b[j].id))
        &&& a[j].shelf_id == sid ==> a[j].position == last_index_of(l, b[j].id) as i32
    } by {
        let x = b[j].id;
        lemma_plan_member(plan, x);
        lemma_same_members_contains(f, book_ids(bb), x);
        if f.contains(x) {
            let u = choose|u: int| 0 <= u < plan.len() && (#[trigger] plan[u]).book_ids@.contains(x);
            lemma_placement_of_member(plan, u, x);
            assert(a[j] == rearranged(plan)(b[j]));
            assert(sh[u] == plan[u].id);
            if u != t {
                assert(sh[u] != sh[t]);
                assert(!l.contains(x));
            }
        } else {
            lemma_placement_of_other(plan, x);
            assert(a[j] == b[j]);
            if l.contains(x) {
                assert(f.contains(x));
            }
            if b[j].shelf_id == sid {
                crate::seqs::lemma_filter_keeps(b, inb, j);
                let q = choose|q: int| 0 <= q < bb.len() && bb[q] == b[j];
                assert(book_ids(bb)[q] == x);
            }
        }
    }
    // The books on the shelf afterwards.
    let p = on_shelf(sid);
    let o2 = after.shelf_books(sid);
    crate::seqs::lemma_filter_member(a, p);
    assert(book_ids(a) =~= book_ids(b));
    let key = |x: Book| x.id;
    assert forall|i: int, j: int| 0 <= i < a.len() && 0 <= j < a.len() && i != j implies key(a[i]) != key(a[j]) by {
        assert(book_ids(a)[i] == a[i].id && book_ids(a)[j] == a[j].id);
    }
    crate::seqs::lemma_filter_distinct(a, p, key);
    assert forall|i: int| 0 <= i < o2.len() implies {
        &&& l.contains((#[trigger] o2[i]).id)
        &&& o2[i].position == last_index_of(l, o2[i].id) as i32
    } by {
        assert(a.contains(o2[i]));
        let j = choose|j: int| 0 <= j < a.len() && a[j] == o2[i];
        assert(a[j].shelf_id == sid);
    }
    // As many books as the plan names for the shelf.
    let oid = book_ids(o2);
    assert(oid.no_duplicates()) by {
        assert forall|i: int, j: int| 0 <= i < oid.len() && 0 <= j < oid.len() && i != j implies oid[i] != oid[j] by {
            assert(key(o2[i]) != key(o2[j]));
        }
    }
    assert(oid.to_set() =~= l.to_set()) by {
        assert forall|x: Id| oid.to_set().contains(x) implies l.to_set().contains(x) by {
            let i = choose|i: int| 0 <= i < oid.len() && oid[i] == x;
            assert(l.contains(o2[i].id));
        }
        assert forall|x: Id| l.to_set().contains(x) implies oid.to_set().contains(x) by {
            lemma_plan_member(plan, x);
            assert(f.contains(x));
            lemma_same_members_contains(f, book_ids(bb), x);
            let q = choose|q: int| 0 <= q < book_ids(bb).len() && book_ids(bb)[q] == x;
            assert(b.contains(bb[q]));
            let j = choose|j: int| 0 <= j < b.len() && b[j] == bb[q];
            assert(a[j].shelf_id == sid);
            crate::seqs::lemma_filter_keeps(a, p, j);
            let i = choose|i: int| 0 <= i < o2.len() && o2[i] == a[j];
            assert(oid[i] == x);
        }
    }
    oid.unique_seq_to_set();
    l.unique_seq_to_set();
    assert(o2.len() == l.len());
    // Their positions are the places in the plan.
    let keys = book_positions(o2);
    assert forall|i: int| 0 <= i < keys.len() implies {
        &&& 0 <= #[trigger] keys[i] < keys.len()
        &&& keys[i] == last_index_of(l, o2[i].id)
        &&& l[keys[i] as int] == o2[i].id
    } by {
        lemma_last_index_of(l, o2[i].id);
    }
    assert forall|i: int, j: int| 0 <= i < keys.len() && 0 <= j < keys.len() && i != j implies keys[i]
        != keys[j] by {
        assert(key(o2[i]) != key(o2[j]));
    }
    assert(keys.len() <= usize::MAX);
    crate::order::lemma_ordering_of_permutation(keys);
    crate::order::lemma_ordering_props(keys, keys.len());
    let ord = crate::order::ordering(keys, keys.len());
    let listing = after.book_listing(sid);
    assert forall|k: int| 0 <= k < l.len() implies book_ids(listing)[k] == l[k] by {
        assert(ord.contains(ord[k]));
        let i = ord[k] as int;
        assert(keys[i] == k);
        assert(listing[k] == o2[i]);
    }
    assert(book_ids(listing) =~= l);
}

} // verus!
