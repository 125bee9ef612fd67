use vstd::prelude::*;

use crate::catalog::{
    lemma_filter_bookcases_wf, lemma_filter_books_wf, lemma_filter_shelves_wf, only_books_differ,
    Catalog,
};
use crate::catalog::bookcases::of_owner;
use crate::ids::Id;
use crate::seqs::lemma_filter_contains_iff;
use crate::rows::{bookcase_ids, shelf_ids, Book, Bookcase, Row, Shelf};

verus! {

/// The books that are not on the shelf `shelf_id`.
pub open spec fn off_shelf(shelf_id: Id) -> spec_fn(Book) -> bool {
    |k: Book| k.shelf_id != shelf_id
}

/// The shelves that do not stand in the bookcase `bookcase_id`.
pub open spec fn outside_bookcase(bookcase_id: Id) -> spec_fn(Shelf) -> bool {
    |s: Shelf| s.bookcase_id != bookcase_id
}

/// The books that are not on any of the shelves `shelf_ids`.
pub open spec fn off_shelves(shelf_ids: Seq<Id>) -> spec_fn(Book) -> bool {
    |k: Book| !shelf_ids.contains(k.shelf_id)
}

/// The bookcases that survive when `user` deletes the bookcase `id`.
pub open spec fn bookcase_kept(user: Id, id: Id) -> spec_fn(Bookcase) -> bool {
    |b: Bookcase| !(b.id == id && b.user_id == user)
}

impl Catalog {
    /// The books that survive when `user` deletes the book `id`.
    pub open spec fn book_kept(&self, user: Id, id: Id) -> spec_fn(Book) -> bool {
        |k: Book| !(k.id == id && self.owns_shelf(user, k.shelf_id))
    }

    /// The shelves that survive when `user` deletes the shelf `id`.
    pub open spec fn shelf_kept(&self, user: Id, id: Id) -> spec_fn(Shelf) -> bool {
        |s: Shelf| !(s.id == id && self.owns_bookcase(user, s.bookcase_id))
    }

    /// Deletes the book `id` when it stands on a shelf of `user`; otherwise
    /// nothing changes. Deleting never fails.
    pub fn delete_book(&mut self, user: Id, id: Id)
        ensures
            final(self).books@ == old(self).books@.filter(old(self).book_kept(user, id)),
            forall|k: Book|
                #[trigger] final(self).books@.contains(k) <==> (old(self).books@.contains(k) && !(k.id == id
                    && old(self).owns_shelf(user, k.shelf_id))),
            only_books_differ(*old(self), *final(self)),
            old(self).wf() ==> final(self).wf(),
    {
        let ghost pred = self.book_kept(user, id);
        let mut kept: Vec<Book> = Vec::new();
        let mut i: usize = 0;
        while i < self.books.len()
            invariant
                i <= self.books.len(),
                pred == old(self).book_kept(user, id),
                *self == *old(self),
                kept@ == self.books@.take(i as int).filter(pred),
            decreases self.books.len() - i,
        {
            proof {
                let s = self.books@;
                assert(s.take(i + 1) == s.take(i as int).push(s[i as int]));
                s.take(i as int).lemma_filter_push(s[i as int], pred);
            }
            if !(self.books[i].id == id && self.check_owns_shelf(user, self.books[i].shelf_id)) {
                kept.push(self.books[i].duplicate());
            }
            i = i + 1;
        }
        assert(self.books@.take(self.books.len() as int) == self.books@);
        self.books = kept;
        proof {
            if old(self).wf() {
                lemma_filter_books_wf(old(self).books@, pred);
            }
            lemma_delete_book_rows(*old(self), *self, user, id);
        }
    }

    /// Deletes the shelf `id`, with its books, when it stands in a bookcase of
    /// `user`; otherwise nothing changes. Deleting never fails.
    pub fn delete_shelf(&mut self, user: Id, id: Id)
        ensures
            final(self).shelves@ == old(self).shelves@.filter(old(self).shelf_kept(user, id)),
            final(self).books@ == if old(self).owns_shelf(user, id) {
                old(self).books@.filter(off_shelf(id))
            } else {
                old(self).books@
            },
            final(self).users@ == old(self).users@,
            final(self).accounts@ == old(self).accounts@,
            final(self).bookcases@ == old(self).bookcases@,
            forall|t: Shelf|
                #[trigger] final(self).shelves@.contains(t) <==> (old(self).shelves@.contains(t) && !(t.id == id
                    && old(self).owns_bookcase(user, t.bookcase_id))),
            forall|k: Book|
                #[trigger] final(self).books@.contains(k) <==> (old(self).books@.contains(k) && !(old(
                    self,
                ).owns_shelf(user, id) && k.shelf_id == id)),
            old(self).wf() ==> final(self).wf(),
    {
        let removed = self.check_owns_shelf(user, id);
        let ghost pred = self.shelf_kept(user, id);
        let mut kept: Vec<Shelf> = Vec::new();
        let mut i: usize = 0;
        while i < self.shelves.len()
            invariant
                i <= self.shelves.len(),
                pred == old(self).shelf_kept(user, id),
                *self == *old(self),
                kept@ == self.shelves@.take(i as int).filter(pred),
            decreases self.shelves.len() - i,
        {
            proof {
                let s = self.shelves@;
                assert(s.take(i + 1) == s.take(i as int).push(s[i as int]));
                s.take(i as int).lemma_filter_push(s[i as int], pred);
            }
            if !(self.shelves[i].id == id && self.check_owns_bookcase(user, self.shelves[i].bookcase_id)) {
                kept.push(self.shelves[i].duplicate());
            }
            i = i + 1;
        }
        assert(self.shelves@.take(self.shelves.len() as int) == self.shelves@);
        if removed {
            let mut left: Vec<Book> = Vec::new();
            let mut j: usize = 0;
            while j < self.books.len()
                invariant
                    j <= self.books.len(),
                    *self == *old(self),
                    left@ == self.books@.take(j as int).filter(off_shelf(id)),
                decreases self.books.len() - j,
            {
                proof {
                    let s = self.books@;
                    assert(s.take(j + 1) == s.take(j as int).push(s[j as int]));
                    s.take(j as int).lemma_filter_push(s[j as int], off_shelf(id));
                }
                if self.books[j].shelf_id != id {
                    left.push(self.books[j].duplicate());
                }
                j = j + 1;
            }
            assert(self.books@.take(self.books.len() as int) == self.books@);
            self.books = left;
        }
        self.shelves = kept;
        proof {
            if old(self).wf() {
                lemma_filter_shelves_wf(old(self).shelves@, pred);
                lemma_filter_books_wf(old(self).books@, off_shelf(id));
            }
            lemma_delete_shelf_rows(*old(self), *self, user, id);
        }
    }

    /// Deletes the bookcase `id` of `user`, with its shelves and their books;
    /// without such a bookcase nothing changes. Deleting never fails.
    pub fn delete_bookcase(&mut self, user: Id, id: Id)
        ensures
            final(self).bookcases@ == old(self).bookcases@.filter(bookcase_kept(user, id)),
            final(self).shelves@ == if old(self).owns_bookcase(user, id) {
                old(self).shelves@.filter(outside_bookcase(id))
            } else {
                old(self).shelves@
            },
            final(self).books@ == if old(self).owns_bookcase(user, id) {
                old(self).books@.filter(off_shelves(shelf_ids(old(self).bookcase_shelves(id))))
            } else {
                old(self).books@
            },
            final(self).users@ == old(self).users@,
            final(self).accounts@ == old(self).accounts@,
            forall|b: Bookcase|
                #[trigger] final(self).bookcases@.contains(b) <==> (old(self).bookcases@.contains(b) && !(b.id
                    == id && b.user_id == user)),
            forall|t: Shelf|
                #[trigger] final(self).shelves@.contains(t) <==> (old(self).shelves@.contains(t) && !(old(
                    self,
                ).owns_bookcase(user, id) && t.bookcase_id == id)),
            forall|k: Book|
                #[trigger] final(self).books@.contains(k) <==> (old(self).books@.contains(k) && !(old(
                    self,
                ).owns_bookcase(user, id) && exists|t: Shelf|
                    #[trigger] old(self).shelves@.contains(t) && t.bookcase_id == id && t.id == k.shelf_id)),
            old(self).wf() ==> final(self).wf(),
    {
        let removed = self.check_owns_bookcase(user, id);
        let mut kept: Vec<Bookcase> = Vec::new();
        let mut i: usize = 0;
        while i < self.bookcases.len()
            invariant
                i <= self.bookcases.len(),
                *self == *old(self),
                kept@ == self.bookcases@.take(i as int).filter(bookcase_kept(user, id)),
            decreases self.bookcases.len() - i,
        {
            proof {
                let s = self.bookcases@;
                assert(s.take(i + 1) == s.take(i as int).push(s[i as int]));
                s.take(i as int).lemma_filter_push(s[i as int], bookcase_kept(user, id));
            }
            if !(self.bookcases[i].id == id && self.bookcases[i].user_id == user) {
                kept.push(self.bookcases[i].duplicate());
            }
            i = i + 1;
        }
        assert(self.bookcases@.take(self.bookcases.len() as int) == self.bookcases@);
        if removed {
            let gone_rows = self.collect_bookcase_shelves(id);
            let gone = crate::catalog::shelves::shelf_id_list(&gone_rows);
            let mut shelves_left: Vec<Shelf> = Vec::new();
            let mut j: usize = 0;
            while j < self.shelves.len()
                invariant
                    j <= self.shelves.len(),
                    *self == *old(self),
                    shelves_left@ == self.shelves@.take(j as int).filter(outside_bookcase(id)),
                decreases self.shelves.len() - j,
            {
                proof {
                    let s = self.shelves@;
                    assert(s.take(j + 1) == s.take(j as int).push(s[j as int]));
                    s.take(j as int).lemma_filter_push(s[j as int], outside_bookcase(id));
                }
                if self.shelves[j].bookcase_id != id {
                    shelves_left.push(self.shelves[j].duplicate());
                }
                j = j + 1;
            }
            assert(self.shelves@.take(self.shelves.len() as int) == self.shelves@);
            let mut books_left: Vec<Book> = Vec::new();
            let mut k: usize = 0;
            while k < self.books.len()
                invariant
                    k <= self.books.len(),
                    *self == *old(self),
                    gone@ == shelf_ids(old(self).bookcase_shelves(id)),
                    books_left@ == self.books@.take(k as int).filter(off_shelves(gone@)),
                decreases self.books.len() - k,
            {
                proof {
                    let s = self.books@;
                    assert(s.take(k + 1) == s.take(k as int).push(s[k as int]));
                    s.take(k as int).lemma_filter_push(s[k as int], off_shelves(gone@));
                }
                if !contains_id(&gone, self.books[k].shelf_id) {
                    books_left.push(self.books[k].duplicate());
                }
                k = k + 1;
            }
            assert(self.books@.take(self.books.len() as int) == self.books@);
            self.shelves = shelves_left;
            self.books = books_left;
            proof {
                if old(self).wf() {
                    lemma_filter_shelves_wf(old(self).shelves@, outside_bookcase(id));
                    lemma_filter_books_wf(old(self).books@, off_shelves(gone@));
                }
            }
        }
        self.bookcases = kept;
        proof {
            if old(self).wf() {
                lemma_filter_bookcases_wf(old(self).bookcases@, bookcase_kept(user, id));
            }
            lemma_delete_bookcase_rows(*old(self), *self, user, id);
        }
    }
}

/// Whether `x` occurs in `s`.
pub fn contains_id(s: &Vec<Id>, x: Id) -> (r: bool)
    ensures
        r == s@.contains(x),
{
    let mut i: usize = 0;
    while i < s.len()
        invariant
            i <= s.len(),
            forall|t: int| 0 <= t < i ==> s@[t] != x,
        decreases s.len() - i,
    {
        if s[i] == x {
            return true;
        }
        i = i + 1;
    }
    false
}

/// After `user` deleted one of their bookcases, their listing no longer shows it.
pub proof fn lemma_delete_then_list(before: Catalog, after: Catalog, user: Id, id: Id)
    requires
        after.bookcases@ == before.bookcases@.filter(bookcase_kept(user, id)),
    ensures
        !bookcase_ids(after.bookcase_listing(user)).contains(id),
{
    let o = after.user_bookcases(user);
    let keys = crate::rows::bookcase_positions(o);
    let l = after.bookcase_listing(user);
    crate::seqs::lemma_filter_member(after.bookcases@, of_owner(user));
    crate::seqs::lemma_filter_member(before.bookcases@, bookcase_kept(user, id));
    crate::seqs::lemma_filter_len(after.bookcases@, of_owner(user));
    assert(after.bookcases@.len() == after.bookcases.len());
    crate::order::lemma_ordering_props(keys, keys.len());
    let ord = crate::order::ordering(keys, keys.len());
    if bookcase_ids(l).contains(id) {
        let k = choose|k: int| 0 <= k < bookcase_ids(l).len() && bookcase_ids(l)[k] == id;
        assert(ord.contains(ord[k]));
        let t = ord[k] as int;
        assert(l[k] == o[t]);
        assert(o[t].user_id == user);
        assert(after.bookcases@.contains(o[t]));
        let w = choose|w: int| 0 <= w < after.bookcases@.len() && after.bookcases@[w] == o[t];
        assert(bookcase_kept(user, id)(after.bookcases@[w]));
    }
}

} // verus!

verus! {

/// Filtering twice by the same test is filtering once.
proof fn lemma_filter_idempotent<T>(s: Seq<T>, p: spec_fn(T) -> bool)
    ensures
        s.filter(p).filter(p) == s.filter(p),
    decreases s.len(),
{
    reveal(Seq::filter);
    if s.len() > 0 {
        lemma_filter_idempotent(s.drop_last(), p);
        if p(s.last()) {
            s.drop_last().filter(p).lemma_filter_push(s.last(), p);
        }
    }
}

/// Deleting a bookcase a second time changes nothing.
pub proof fn lemma_delete_bookcase_twice(c0: Catalog, c1: Catalog, c2: Catalog, user: Id, id: Id)
    requires
        c1.bookcases@ == c0.bookcases@.filter(bookcase_kept(user, id)),
        c1.shelves@ == if c0.owns_bookcase(user, id) {
            c0.shelves@.filter(outside_bookcase(id))
        } else {
            c0.shelves@
        },
        c1.books@ == if c0.owns_bookcase(user, id) {
            c0.books@.filter(off_shelves(shelf_ids(c0.bookcase_shelves(id))))
        } else {
            c0.books@
        },
        c2.bookcases@ == c1.bookcases@.filter(bookcase_kept(user, id)),
        c2.shelves@ == if c1.owns_bookcase(user, id) {
            c1.shelves@.filter(outside_bookcase(id))
        } else {
            c1.shelves@
        },
        c2.books@ == if c1.owns_bookcase(user, id) {
            c1.books@.filter(off_shelves(shelf_ids(c1.bookcase_shelves(id))))
        } else {
            c1.books@
        },
    ensures
        c2.bookcases@ == c1.bookcases@,
        c2.shelves@ == c1.shelves@,
        c2.books@ == c1.books@,
{
    lemma_filter_idempotent(c0.bookcases@, bookcase_kept(user, id));
    crate::seqs::lemma_filter_member(c0.bookcases@, bookcase_kept(user, id));
    if c1.owns_bookcase(user, id) {
        let i = choose|i: int|
            0 <= i < c1.bookcases@.len() && c1.bookcases@[i].id == id && #[trigger] c1.bookcases@[i].user_id
                == user;
        assert(c0.bookcases@.contains(c1.bookcases@[i]));
        assert(bookcase_kept(user, id)(c1.bookcases@[i]));
    }
}

/// After `user` deleted their shelf, no bookcase lists it any more.
pub proof fn lemma_delete_shelf_then_list(before: Catalog, after: Catalog, user: Id, id: Id, bookcase_id: Id)
    requires
        before.wf(),
        before.owns_shelf(user, id),
        after.shelves@ == before.shelves@.filter(before.shelf_kept(user, id)),
    ensures
        !shelf_ids(after.shelf_listing(bookcase_id)).contains(id),
{
    let s = before.shelves@;
    let w = choose|w: int| 0 <= w < s.len() && #[trigger] s[w].id == id && before.owns_bookcase(user, s[w].bookcase_id);
    let p = crate::catalog::shelves::in_bookcase(bookcase_id);
    let o = after.bookcase_shelves(bookcase_id);
    let keys = crate::rows::shelf_positions(o);
    let l = after.shelf_listing(bookcase_id);
    crate::seqs::lemma_filter_member(after.shelves@, p);
    crate::seqs::lemma_filter_member(s, before.shelf_kept(user, id));
    crate::seqs::lemma_filter_len(after.shelves@, p);
    assert(after.shelves@.len() == after.shelves.len());
    crate::order::lemma_ordering_props(keys, keys.len());
    let ord = crate::order::ordering(keys, keys.len());
    if shelf_ids(l).contains(id) {
        let k = choose|k: int| 0 <= k < shelf_ids(l).len() && shelf_ids(l)[k] == id;
        assert(ord.contains(ord[k]));
        let t = ord[k] as int;
        assert(l[k] == o[t]);
        assert(after.shelves@.contains(o[t]));
        assert(s.contains(o[t]));
        let j = choose|j: int| 0 <= j < s.len() && s[j] == o[t];
        assert(before.shelf_kept(user, id)(s[j]));
        assert(shelf_ids(s)[j] == shelf_ids(s)[w]);
    }
}

/// After `user` deleted their book, no shelf lists it any more.
pub proof fn lemma_delete_book_then_list(before: Catalog, after: Catalog, user: Id, id: Id, shelf_id: Id)
    requires
        before.wf(),
        before.owns_book(user, id),
        after.books@ == before.books@.filter(before.book_kept(user, id)),
    ensures
        !crate::rows::book_ids(after.book_listing(shelf_id)).contains(id),
{
    let s = before.books@;
    let w = choose|w: int| 0 <= w < s.len() && #[trigger] s[w].id == id && before.owns_shelf(user, s[w].shelf_id);
    let p = crate::catalog::books::on_shelf(shelf_id);
    let o = after.shelf_books(shelf_id);
    let keys = crate::rows::book_positions(o);
    let l = after.book_listing(shelf_id);
    crate::seqs::lemma_filter_member(after.books@, p);
    crate::seqs::lemma_filter_member(s, before.book_kept(user, id));
    crate::seqs::lemma_filter_len(after.books@, p);
    assert(after.books@.len() == after.books.len());
    crate::order::lemma_ordering_props(keys, keys.len());
    let ord = crate::order::ordering(keys, keys.len());
    if crate::rows::book_ids(l).contains(id) {
        let k = choose|k: int| 0 <= k < crate::rows::book_ids(l).len() && crate::rows::book_ids(l)[k] == id;
        assert(ord.contains(ord[k]));
        let t = ord[k] as int;
        assert(l[k] == o[t]);
        assert(after.books@.contains(o[t]));
        assert(s.contains(o[t]));
        let j = choose|j: int| 0 <= j < s.len() && s[j] == o[t];
        assert(before.book_kept(user, id)(s[j]));
        assert(crate::rows::book_ids(s)[j] == crate::rows::book_ids(s)[w]);
    }
}

} // verus!

verus! {

/// Deleting a book removes exactly the rows with that identifier that stand on
/// a shelf of the user; every other book stays.
pub proof fn lemma_delete_book_rows(before: Catalog, after: Catalog, user: Id, id: Id)
    requires
        after.books@ == before.books@.filter(before.book_kept(user, id)),
    ensures
        forall|k: Book|
            #[trigger] after.books@.contains(k) <==> (before.books@.contains(k) && !(k.id == id
                && before.owns_shelf(user, k.shelf_id))),
{
    lemma_filter_contains_iff(before.books@, before.book_kept(user, id));
}

/// Deleting a shelf removes exactly the rows with that identifier that stand in
/// a bookcase of the user, and, when there was one, the books on that shelf;
/// every other shelf and book stays.
pub proof fn lemma_delete_shelf_rows(before: Catalog, after: Catalog, user: Id, id: Id)
    requires
        after.shelves@ == before.shelves@.filter(before.shelf_kept(user, id)),
        after.books@ == if before.owns_shelf(user, id) {
            before.books@.filter(off_shelf(id))
        } else {
            before.books@
        },
    ensures
        forall|t: Shelf|
            #[trigger] after.shelves@.contains(t) <==> (before.shelves@.contains(t) && !(t.id == id
                && before.owns_bookcase(user, t.bookcase_id))),
        forall|k: Book|
            #[trigger] after.books@.contains(k) <==> (before.books@.contains(k) && !(before.owns_shelf(user, id)
                && k.shelf_id == id)),
{
    lemma_filter_contains_iff(before.shelves@, before.shelf_kept(user, id));
    lemma_filter_contains_iff(before.books@, off_shelf(id));
}

/// Deleting a bookcase removes exactly the user's bookcase with that identifier
/// and, when there was one, its shelves and the books on them; every other
/// bookcase, shelf and book stays.
pub proof fn lemma_delete_bookcase_rows(before: Catalog, after: Catalog, user: Id, id: Id)
    requires
        after.bookcases@ == before.bookcases@.filter(bookcase_kept(user, id)),
        after.shelves@ == if before.owns_bookcase(user, id) {
            before.shelves@.filter(outside_bookcase(id))
        } else {
            before.shelves@
        },
        after.books@ == if before.owns_bookcase(user, id) {
            before.books@.filter(off_shelves(shelf_ids(before.bookcase_shelves(id))))
        } else {
            before.books@
        },
    ensures
        forall|b: Bookcase|
            #[trigger] after.bookcases@.contains(b) <==> (before.bookcases@.contains(b) && !(b.id == id
                && b.user_id == user)),
        forall|t: Shelf|
            #[trigger] after.shelves@.contains(t) <==> (before.shelves@.contains(t) && !(before.owns_bookcase(
                user,
                id,
            ) && t.bookcase_id == id)),
        forall|k: Book|
            #[trigger] after.books@.contains(k) <==> (before.books@.contains(k) && !(before.owns_bookcase(
                user,
                id,
            ) && exists|t: Shelf| #[trigger] before.shelves@.contains(t) && t.bookcase_id == id && t.id == k.shelf_id)),
{
    lemma_filter_contains_iff(before.bookcases@, bookcase_kept(user, id));
    lemma_filter_contains_iff(before.shelves@, outside_bookcase(id));
    let f = before.bookcase_shelves(id);
    let ids = shelf_ids(f);
    let p = crate::catalog::shelves::in_bookcase(id);
    lemma_filter_contains_iff(before.shelves@, p);
    lemma_filter_contains_iff(before.books@, off_shelves(ids));
    assert forall|x: Id|
        ids.contains(x) <==> exists|t: Shelf| #[trigger] before.shelves@.contains(t) && t.bookcase_id == id && t.id == x by {
        if ids.contains(x) {
            let j = choose|j: int| 0 <= j < ids.len() && ids[j] == x;
            assert(f.contains(f[j]));
            assert(before.shelves@.contains(f[j]) && p(f[j]));
        }
        if exists|t: Shelf| #[trigger] before.shelves@.contains(t) && t.bookcase_id == id && t.id == x {
            let t = choose|t: Shelf| #[trigger] before.shelves@.contains(t) && t.bookcase_id == id && t.id == x;
            assert(p(t));
            assert(f.contains(t));
            let j = choose|j: int| 0 <= j < f.len() && f[j] == t;
            assert(ids[j] == x);
        }
    }
}

} // verus!

verus! {

/// After `user` deleted a bookcase, their listing shows exactly the bookcases it
/// showed before, but the deleted one.
pub proof fn lemma_delete_bookcase_listing(before: Catalog, after: Catalog, user: Id, id: Id)
    requires
        after.bookcases@ == before.bookcases@.filter(bookcase_kept(user, id)),
    ensures
        forall|b: Bookcase|
            #[trigger] after.bookcase_listing(user).contains(b) <==> (before.bookcase_listing(user).contains(b)
                && b.id != id),
{
    lemma_filter_contains_iff(before.bookcases@, bookcase_kept(user, id));
    lemma_filter_contains_iff(before.bookcases@, of_owner(user));
    lemma_filter_contains_iff(after.bookcases@, of_owner(user));
    let o1 = before.user_bookcases(user);
    let o2 = after.user_bookcases(user);
    crate::seqs::lemma_filter_len(before.bookcases@, of_owner(user));
    crate::seqs::lemma_filter_len(after.bookcases@, of_owner(user));
    assert(before.bookcases@.len() == before.bookcases.len());
    assert(after.bookcases@.len() == after.bookcases.len());
    crate::arrange::lemma_arranged_members(o1, crate::rows::bookcase_positions(o1));
    crate::arrange::lemma_arranged_members(o2, crate::rows::bookcase_positions(o2));
}

} // verus!
