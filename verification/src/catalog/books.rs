use vstd::prelude::*;

use crate::arrange::{arrange, arranged, next_position};
use crate::catalog::{only_books_differ, same_contents, Catalog};
use crate::error::{AppError, BAD_REQUEST, INTERNAL_SERVER_ERROR};
use crate::ids::{find_last, last_index_of, lemma_last_index_of, same_ids, same_members, Id};
use crate::order::{lemma_ordering_of_permutation, lemma_ordering_props, ordering};
use crate::rows::{book_ids, book_positions, Book, Row};
use crate::seqs::{lemma_filter_distinct, lemma_filter_map_commute, lemma_filter_member};

verus! {

/// The colour of a book for which none was given.
pub open spec fn default_color() -> Seq<char> {
    "#8B4513"@
}

/// The colour a new book gets: the one given, else the default.
pub open spec fn color_or_default(color: Option<String>) -> Seq<char> {
    match color {
        Some(c) => c@,
        None => default_color(),
    }
}

/// The changes asked for a book: each field that is given replaces the stored
/// one; a shelf that is given moves the book there.
pub struct BookPatch {
    pub title: Option<String>,
    pub author: Option<String>,
    pub color: Option<String>,
    pub open_library_url: Option<String>,
    pub cover_url: Option<String>,
    pub shelf_id: Option<Id>,
}

/// A given value, else the stored one.
pub open spec fn given_or<T>(given: Option<T>, stored: T) -> T {
    match given {
        Some(v) => v,
        None => stored,
    }
}

/// `k` with the fields of `patch` that are given.
pub open spec fn patched(k: Book, patch: BookPatch) -> Book {
    Book {
        id: k.id,
        shelf_id: k.shelf_id,
        title: given_or(patch.title, k.title),
        author: given_or(patch.author, k.author),
        color: given_or(patch.color, k.color),
        position: k.position,
        open_library_url: match patch.open_library_url {
            Some(u) => Some(u),
            None => k.open_library_url,
        },
        cover_url: match patch.cover_url {
            Some(u) => Some(u),
            None => k.cover_url,
        },
        created_at: k.created_at,
    }
}

/// `a` is `b` changed by `patch`: every field that `patch` gives has the given
/// value, and every other field, the identifier and the creation time keep
/// `b`'s values.
pub open spec fn carries_patch(a: Book, b: Book, patch: BookPatch) -> bool {
    &&& a.id == b.id
    &&& a.created_at == b.created_at
    &&& patch.title matches Some(t) ==> a.title == t
    &&& patch.title is None ==> a.title == b.title
    &&& patch.author matches Some(x) ==> a.author == x
    &&& patch.author is None ==> a.author == b.author
    &&& patch.color matches Some(c) ==> a.color == c
    &&& patch.color is None ==> a.color == b.color
    &&& patch.open_library_url matches Some(u) ==> a.open_library_url == Some(u)
    &&& patch.open_library_url is None ==> a.open_library_url == b.open_library_url
    &&& patch.cover_url matches Some(u) ==> a.cover_url == Some(u)
    &&& patch.cover_url is None ==> a.cover_url == b.cover_url
}

/// `k` on the shelf `shelf_id` at position `p`.
pub open spec fn book_placed(k: Book, shelf_id: Id, p: i32) -> Book {
    Book {
        id: k.id,
        shelf_id: shelf_id,
        title: k.title,
        author: k.author,
        color: k.color,
        position: p,
        open_library_url: k.open_library_url,
        cover_url: k.cover_url,
        created_at: k.created_at,
    }
}

/// The books on the shelf `shelf_id`.
pub open spec fn on_shelf(shelf_id: Id) -> spec_fn(Book) -> bool {
    |k: Book| k.shelf_id == shelf_id
}

/// A book after the order `ids` was asked for: a book named there takes the
/// place of its (last) mention as its position.
pub open spec fn book_repositioned(ids: Seq<Id>) -> spec_fn(Book) -> Book {
    |k: Book|
        if ids.contains(k.id) {
            book_placed(k, k.shelf_id, last_index_of(ids, k.id) as i32)
        } else {
            k
        }
}

impl Catalog {
    /// The books on the shelf `shelf_id`, in the order they were added.
    pub open spec fn shelf_books(&self, shelf_id: Id) -> Seq<Book> {
        self.books@.filter(on_shelf(shelf_id))
    }

    /// The books on the shelf `shelf_id`, ordered by position.
    pub open spec fn book_listing(&self, shelf_id: Id) -> Seq<Book> {
        arranged(self.shelf_books(shelf_id), book_positions(self.shelf_books(shelf_id)))
    }

    /// The book `id` stands on a shelf of `user`.
    pub open spec fn owns_book(&self, user: Id, id: Id) -> bool {
        exists|i: int|
            0 <= i < self.books@.len() && #[trigger] self.books@[i].id == id && self.owns_shelf(
                user,
                self.books@[i].shelf_id,
            )
    }

    /// The books after the book `id` of `user` got the changes `patch` in place.
    pub open spec fn patched_books(&self, user: Id, id: Id, patch: BookPatch) -> Seq<Book> {
        Seq::new(
            self.books@.len(),
            |i: int|
                {
                    let k = self.books@[i];
                    if k.id == id && self.owns_shelf(user, k.shelf_id) {
                        patched(k, patch)
                    } else {
                        k
                    }
                },
        )
    }

    /// A book after the book `id` of `user` got the changes `patch` in place.
    pub open spec fn book_patched(&self, user: Id, id: Id, patch: BookPatch) -> spec_fn(Book) -> Book {
        |k: Book|
            if k.id == id && self.owns_shelf(user, k.shelf_id) {
                patched(k, patch)
            } else {
                k
            }
    }

    /// The books after the book `id` got the changes `patch` and moved to the
    /// shelf `shelf_id` at position `p`.
    pub open spec fn moved_books(&self, id: Id, patch: BookPatch, shelf_id: Id, p: i32) -> Seq<Book> {
        Seq::new(
            self.books@.len(),
            |i: int|
                {
                    let k = self.books@[i];
                    if k.id == id {
                        book_placed(patched(k, patch), shelf_id, p)
                    } else {
                        k
                    }
                },
        )
    }

    /// The books on the shelf `shelf_id`, in the order they were added.
    pub fn collect_shelf_books(&self, shelf_id: Id) -> (r: Vec<Book>)
        ensures
            r@ == self.shelf_books(shelf_id),
    {
        let mut r: Vec<Book> = Vec::new();
        let mut i: usize = 0;
        while i < self.books.len()
            invariant
                i <= self.books.len(),
                r@ == self.books@.take(i as int).filter(on_shelf(shelf_id)),
            decreases self.books.len() - i,
        {
            proof {
                let s = self.books@;
                assert(s.take(i + 1) == s.take(i as int).push(s[i as int]));
                s.take(i as int).lemma_filter_push(s[i as int], on_shelf(shelf_id));
            }
            if self.books[i].shelf_id == shelf_id {
                r.push(self.books[i].duplicate());
            }
            i = i + 1;
        }
        assert(self.books@.take(self.books.len() as int) == self.books@);
        r
    }

    /// Whether the book `id` stands on a shelf of `user`.
    pub fn check_owns_book(&self, user: Id, id: Id) -> (r: bool)
        ensures
            r == self.owns_book(user, id),
    {
        let mut i: usize = 0;
        while i < self.books.len()
            invariant
                i <= self.books.len(),
                forall|t: int|
                    0 <= t < i ==> !(self.books@[t].id == id && self.owns_shelf(user, self.books@[t].shelf_id)),
            decreases self.books.len() - i,
        {
            if self.books[i].id == id && self.check_owns_shelf(user, self.books[i].shelf_id) {
                return true;
            }
            i = i + 1;
        }
        false
    }

    /// Whether a book with identifier `id` is stored.
    pub fn has_book_id(&self, id: Id) -> (r: bool)
        ensures
            r == book_ids(self.books@).contains(id),
    {
        let mut i: usize = 0;
        while i < self.books.len()
            invariant
                i <= self.books.len(),
                forall|t: int| 0 <= t < i ==> self.books@[t].id != id,
            decreases self.books.len() - i,
        {
            if self.books[i].id == id {
                assert(book_ids(self.books@)[i as int] == id);
                return true;
            }
            i = i + 1;
        }
        assert forall|t: int| 0 <= t < book_ids(self.books@).len() implies book_ids(self.books@)[t]
            != id by {}
        false
    }

    /// The books on the shelf `shelf_id` of `user`, ordered by position; none when
    /// the shelf is not theirs.
    pub fn list_books(&self, user: Id, shelf_id: Id) -> (r: Vec<Book>)
        ensures
            r@ == if self.owns_shelf(user, shelf_id) {
                self.book_listing(shelf_id)
            } else {
                Seq::empty()
            },
    {
        if !self.check_owns_shelf(user, shelf_id) {
            return Vec::new();
        }
        let rows = self.collect_shelf_books(shelf_id);
        let keys = book_position_list(&rows);
        arrange(&rows, &keys)
    }

    /// Adds a book after the last book of the shelf `shelf_id` of `user`, in the
    /// given colour or the default one, without a cover. Refused (400, "Shelf not
    /// found") when the shelf is not theirs; a server error when the identifier
    /// is taken or the next position does not fit. A failure changes nothing.
    pub fn create_book(
        &mut self,
        user: Id,
        shelf_id: Id,
        title: String,
        author: String,
        color: Option<String>,
        open_library_url: Option<String>,
        id: Id,
        created_at: i64,
    ) -> (r: Result<Book, AppError>)
        ensures
            r is Ok <==> (old(self).owns_shelf(user, shelf_id) && !book_ids(old(self).books@).contains(id)
                && next_position(book_positions(old(self).shelf_books(shelf_id))) <= i32::MAX),
            match r {
                Ok(k) => {
                    &&& k.id == id
                    &&& k.shelf_id == shelf_id
                    &&& k.title == title
                    &&& k.author == author
                    &&& k.color@ == color_or_default(color)
                    &&& k.position == next_position(book_positions(old(self).shelf_books(shelf_id)))
                    &&& k.open_library_url == open_library_url
                    &&& k.cover_url is None
                    &&& k.created_at == created_at
                    &&& final(self).books@ == old(self).books@.push(k)
                    &&& only_books_differ(*old(self), *final(self))
                    &&& old(self).wf() ==> final(self).wf()
                },
                Err(e) => {
                    &&& e.status == (if old(self).owns_shelf(user, shelf_id) {
                        INTERNAL_SERVER_ERROR
                    } else {
                        BAD_REQUEST
                    })
                    &&& !old(self).owns_shelf(user, shelf_id) ==> e.message@ == "Shelf not found"@
                    &&& same_contents(*old(self), *final(self))
                },
            },
            r matches Ok(k) ==> {
                &&& color matches Some(c) ==> k.color@ == c@
                &&& color is None ==> k.color@ == "#8B4513"@
            },
    {
        if !self.check_owns_shelf(user, shelf_id) {
            return Err(AppError::bad_request("Shelf not found".to_owned()));
        }
        if self.has_book_id(id) {
            return Err(AppError::internal("the book identifier is taken".to_owned()));
        }
        let rows = self.collect_shelf_books(shelf_id);
        let keys = book_position_list(&rows);
        match crate::arrange::compute_next_position(&keys) {
            None => Err(AppError::internal("integer out of range".to_owned())),
            Some(p) => {
                let c = match color {
                    Some(c) => c,
                    None => "#8B4513".to_owned(),
                };
                let k = Book {
                    id,
                    shelf_id,
                    title,
                    author,
                    color: c,
                    position: p,
                    open_library_url,
                    cover_url: None,
                    created_at,
                };
                self.books.push(k.duplicate());
                assert(book_ids(self.books@) =~= book_ids(old(self).books@).push(id));
                Ok(k)
            },
        }
    }

    /// Puts the books of the shelf `shelf_id` of `user` in the order `ids`: refused
    /// (400) unless `ids` names each of its books exactly once (a shelf that is not
    /// theirs has none); otherwise the book named at place `k` gets position `k`.
    pub fn reorder_books(&mut self, user: Id, shelf_id: Id, ids: &Vec<Id>) -> (r: Result<
        (),
        AppError,
    >)
        ensures
            r is Ok <==> same_members(
                ids@,
                if old(self).owns_shelf(user, shelf_id) {
                    book_ids(old(self).shelf_books(shelf_id))
                } else {
                    Seq::empty()
                },
            ),
            match r {
                Ok(_) => {
                    &&& final(self).books@ == old(self).books@.map_values(book_repositioned(ids@))
                    &&& only_books_differ(*old(self), *final(self))
                    &&& book_ids(final(self).books@) == book_ids(old(self).books@)
                    &&& old(self).wf() ==> final(self).wf()
                },
                Err(e) => {
                    &&& e.status == BAD_REQUEST
                    &&& e.message@ == "Provided IDs do not match the shelf's books exactly"@
                    &&& same_contents(*old(self), *final(self))
                },
            },
    {
        let existing: Vec<Id> = if self.check_owns_shelf(user, shelf_id) {
            let rows = self.collect_shelf_books(shelf_id);
            book_id_list(&rows)
        } else {
            let v: Vec<Id> = Vec::new();
            v
        };
        if !same_ids(ids, &existing) {
            return Err(
                AppError::bad_request("Provided IDs do not match the shelf's books exactly".to_owned()),
            );
        }
        let ghost before = self.books@;
        let mut i: usize = 0;
        while i < self.books.len()
            invariant
                i <= self.books.len(),
                self.books@.len() == before.len(),
                before == old(self).books@,
                forall|t: int|
                    0 <= t < i ==> self.books@[t] == old(self).books@.map_values(book_repositioned(ids@))[t],
                forall|t: int| i <= t < before.len() ==> self.books@[t] == before[t],
                self.users@ == old(self).users@,
                self.accounts@ == old(self).accounts@,
                self.bookcases@ == old(self).bookcases@,
                self.shelves@ == old(self).shelves@,
            decreases before.len() - i,
        {
            proof {
                lemma_last_index_of(ids@, before[i as int].id);
            }
            match find_last(ids, self.books[i].id) {
                Some(k) => {
                    let row = self.books[i].duplicate();
                    let sid = row.shelf_id;
                    self.books.set(i, place_book(row, sid, k as i32));
                },
                None => {},
            }
            i = i + 1;
        }
        assert(self.books@ =~= old(self).books@.map_values(book_repositioned(ids@)));
        assert(book_ids(self.books@) =~= book_ids(old(self).books@));
        Ok(())
    }
}

impl Catalog {
    /// Applies `patch` to the book `id` of `user`. When the patch names a shelf, the
    /// book must be theirs ("Book not found" otherwise) and so must the shelf
    /// ("Target shelf not found"); the book then moves after the last book of that
    /// shelf (a server error when that position does not fit). Without a shelf,
    /// the book is changed in place when it is theirs ("Book not found" otherwise).
    /// Refusals are answered 400; a failure changes nothing.
    pub fn update_book(&mut self, user: Id, id: Id, patch: BookPatch) -> (r: Result<Book, AppError>)
        ensures
            match patch.shelf_id {
                Some(t) => {
                    &&& r is Ok <==> (old(self).owns_book(user, id) && old(self).owns_shelf(user, t)
                        && next_position(book_positions(old(self).shelf_books(t))) <= i32::MAX)
                    &&& match r {
                        Ok(k) => {
                            let np = next_position(book_positions(old(self).shelf_books(t))) as i32;
                            &&& final(self).books@ == old(self).moved_books(id, patch, t, np)
                            &&& only_books_differ(*old(self), *final(self))
                            &&& book_ids(final(self).books@) == book_ids(old(self).books@)
                            &&& old(self).wf() ==> final(self).wf()
                            &&& exists|i: int|
                                0 <= i < old(self).books@.len() && old(self).books@[i].id == id && (forall|j: int|
                                    0 <= j < i ==> old(self).books@[j].id != id) && k == book_placed(
                                    patched(old(self).books@[i], patch),
                                    t,
                                    np,
                                )
                        },
                        Err(e) => {
                            &&& same_contents(*old(self), *final(self))
                            &&& !old(self).owns_book(user, id) ==> e.status == BAD_REQUEST && e.message@
                                == "Book not found"@
                            &&& old(self).owns_book(user, id) && !old(self).owns_shelf(user, t) ==> e.status
                                == BAD_REQUEST && e.message@ == "Target shelf not found"@
                            &&& old(self).owns_book(user, id) && old(self).owns_shelf(user, t) ==> e.status
                                == INTERNAL_SERVER_ERROR
                        },
                    }
                },
                None => {
                    &&& r is Ok <==> old(self).owns_book(user, id)
                    &&& match r {
                        Ok(k) => {
                            &&& final(self).books@ == old(self).patched_books(user, id, patch)
                            &&& only_books_differ(*old(self), *final(self))
                            &&& book_ids(final(self).books@) == book_ids(old(self).books@)
                            &&& old(self).wf() ==> final(self).wf()
                            &&& exists|i: int|
                                0 <= i < old(self).books@.len() && old(self).books@[i].id == id
                                    && old(self).owns_shelf(user, old(self).books@[i].shelf_id) && (forall|j: int|
                                    0 <= j < i ==> !(old(self).books@[j].id == id && old(self).owns_shelf(
                                        user,
                                        old(self).books@[j].shelf_id,
                                    ))) && k == patched(old(self).books@[i], patch)
                        },
                        Err(e) => {
                            &&& e.status == BAD_REQUEST
                            &&& e.message@ == "Book not found"@
                            &&& same_contents(*old(self), *final(self))
                        },
                    }
                },
            },
            r matches Ok(k) ==> {
                &&& k.id == id
                &&& final(self).books@.contains(k)
                &&& patch.title matches Some(t) ==> k.title == t
                &&& patch.author matches Some(a) ==> k.author == a
                &&& patch.color matches Some(c) ==> k.color == c
                &&& patch.open_library_url matches Some(u) ==> k.open_library_url == Some(u)
                &&& patch.cover_url matches Some(u) ==> k.cover_url == Some(u)
                &&& patch.shelf_id matches Some(t) ==> k.shelf_id == t
            },
    {
        let ghost p0 = patch;
        let ghost before = *self;
        let r = match patch.shelf_id {
            Some(t) => self.move_book(user, id, patch, t),
            None => self.patch_book_in_place(user, id, patch),
        };
        proof {
            if r is Ok {
                let k = r->Ok_0;
                let i = if p0.shelf_id is Some {
                    choose|i: int|
                        0 <= i < before.books@.len() && before.books@[i].id == id && (forall|j: int|
                            0 <= j < i ==> before.books@[j].id != id) && k == book_placed(
                            patched(before.books@[i], p0),
                            p0.shelf_id->0,
                            next_position(book_positions(before.shelf_books(p0.shelf_id->0))) as i32,
                        )
                } else {
                    choose|i: int|
                        0 <= i < before.books@.len() && before.books@[i].id == id && before.owns_shelf(
                            user,
                            before.books@[i].shelf_id,
                        ) && (forall|j: int|
                            0 <= j < i ==> !(before.books@[j].id == id && before.owns_shelf(
                                user,
                                before.books@[j].shelf_id,
                            ))) && k == patched(before.books@[i], p0)
                };
                assert(self.books@[i] == k);
                assert(self.books@.contains(k));
            }
        }
        r
    }

    fn move_book(&mut self, user: Id, id: Id, patch: BookPatch, t: Id) -> (r: Result<Book, AppError>)
        requires
            patch.shelf_id == Some(t),
        ensures
            r is Ok <==> (old(self).owns_book(user, id) && old(self).owns_shelf(user, t) && next_position(
                book_positions(old(self).shelf_books(t)),
            ) <= i32::MAX),
            match r {
                Ok(k) => {
                    let np = next_position(book_positions(old(self).shelf_books(t))) as i32;
                    &&& final(self).books@ == old(self).moved_books(id, patch, t, np)
                    &&& only_books_differ(*old(self), *final(self))
                    &&& book_ids(final(self).books@) == book_ids(old(self).books@)
                    &&& old(self).wf() ==> final(self).wf()
                    &&& exists|i: int|
                        0 <= i < old(self).books@.len() && old(self).books@[i].id == id && (forall|j: int|
                            0 <= j < i ==> old(self).books@[j].id != id) && k == book_placed(
                            patched(old(self).books@[i], patch),
                            t,
                            np,
                        )
                },
                Err(e) => {
                    &&& same_contents(*old(self), *final(self))
                    &&& !old(self).owns_book(user, id) ==> e.status == BAD_REQUEST && e.message@
                        == "Book not found"@
                    &&& old(self).owns_book(user, id) && !old(self).owns_shelf(user, t) ==> e.status
                        == BAD_REQUEST && e.message@ == "Target shelf not found"@
                    &&& old(self).owns_book(user, id) && old(self).owns_shelf(user, t) ==> e.status
                        == INTERNAL_SERVER_ERROR
                },
            },
    {
        if !self.check_owns_book(user, id) {
            return Err(AppError::bad_request("Book not found".to_owned()));
        }
        if !self.check_owns_shelf(user, t) {
            return Err(AppError::bad_request("Target shelf not found".to_owned()));
        }
        let rows = self.collect_shelf_books(t);
        let keys = book_position_list(&rows);
        let np: i32 = match crate::arrange::compute_next_position(&keys) {
            None => {
                return Err(AppError::internal("integer out of range".to_owned()));
            },
            Some(p) => p,
        };
        let ghost before = self.books@;
        let mut first: Option<Book> = None;
        let ghost mut first_at: int = -1;
        let mut i: usize = 0;
        while i < self.books.len()
            invariant
                i <= self.books.len(),
                self.books@.len() == before.len(),
                before == old(self).books@,
                np == next_position(book_positions(old(self).shelf_books(t))),
                forall|u: int| 0 <= u < i ==> self.books@[u] == old(self).moved_books(id, patch, t, np)[u],
                forall|u: int| i <= u < before.len() ==> self.books@[u] == before[u],
                self.users@ == old(self).users@,
                self.accounts@ == old(self).accounts@,
                self.bookcases@ == old(self).bookcases@,
                self.shelves@ == old(self).shelves@,
                match first {
                    None => forall|u: int| 0 <= u < i ==> before[u].id != id,
                    Some(k) => {
                        &&& 0 <= first_at < i
                        &&& before[first_at].id == id
                        &&& forall|j: int| 0 <= j < first_at ==> before[j].id != id
                        &&& k == book_placed(patched(before[first_at], patch), t, np)
                    },
                },
            decreases before.len() - i,
        {
            if self.books[i].id == id {
                let row = self.books[i].duplicate();
                let moved = place_book(apply_patch(row, &patch), t, np);
                if first.is_none() {
                    first = Some(moved.duplicate());
                    proof {
                        first_at = i as int;
                    }
                }
                self.books.set(i, moved);
            }
            i = i + 1;
        }
        assert(self.books@ =~= old(self).moved_books(id, patch, t, np));
        assert(book_ids(self.books@) =~= book_ids(old(self).books@));
        match first {
            Some(k) => {
                assert(0 <= first_at < before.len() && before[first_at].id == id && (forall|j: int|
                    0 <= j < first_at ==> before[j].id != id) && k == book_placed(
                    patched(before[first_at], patch),
                    t,
                    np,
                ));
                Ok(k)
            },
            None => {
                assert(false) by {
                    let w = choose|w: int|
                        0 <= w < before.len() && #[trigger] before[w].id == id && old(self).owns_shelf(
                            user,
                            before[w].shelf_id,
                        );
                }
                Err(AppError::bad_request("Book not found".to_owned()))
            },
        }
    }

    fn patch_book_in_place(&mut self, user: Id, id: Id, patch: BookPatch) -> (r: Result<Book, AppError>)
        ensures
            r is Ok <==> old(self).owns_book(user, id),
            match r {
                Ok(k) => {
                    &&& final(self).books@ == old(self).patched_books(user, id, patch)
                    &&& only_books_differ(*old(self), *final(self))
                    &&& book_ids(final(self).books@) == book_ids(old(self).books@)
                    &&& old(self).wf() ==> final(self).wf()
                    &&& exists|i: int|
                        0 <= i < old(self).books@.len() && old(self).books@[i].id == id && old(self).owns_shelf(
                            user,
                            old(self).books@[i].shelf_id,
                        ) && (forall|j: int|
                            0 <= j < i ==> !(old(self).books@[j].id == id && old(self).owns_shelf(
                                user,
                                old(self).books@[j].shelf_id,
                            ))) && k == patched(old(self).books@[i], patch)
                },
                Err(e) => {
                    &&& e.status == BAD_REQUEST
                    &&& e.message@ == "Book not found"@
                    &&& same_contents(*old(self), *final(self))
                },
            },
    {
        let ghost before = self.books@;
        let mut first: Option<Book> = None;
        let ghost mut first_at: int = -1;
        let mut i: usize = 0;
        while i < self.books.len()
            invariant
                i <= self.books.len(),
                self.books@.len() == before.len(),
                before == old(self).books@,
                forall|u: int| 0 <= u < i ==> self.books@[u] == old(self).patched_books(user, id, patch)[u],
                forall|u: int| i <= u < before.len() ==> self.books@[u] == before[u],
                self.users@ == old(self).users@,
                self.accounts@ == old(self).accounts@,
                self.bookcases@ == old(self).bookcases@,
                self.shelves@ == old(self).shelves@,
                match first {
                    None => forall|u: int|
                        0 <= u < i ==> !(before[u].id == id && old(self).owns_shelf(user, before[u].shelf_id)),
                    Some(k) => {
                        &&& 0 <= first_at < i
                        &&& before[first_at].id == id && old(self).owns_shelf(user, before[first_at].shelf_id)
                        &&& forall|j: int|
                            0 <= j < first_at ==> !(before[j].id == id && old(self).owns_shelf(
                                user,
                                before[j].shelf_id,
                            ))
                        &&& k == patched(before[first_at], patch)
                    },
                },
            decreases before.len() - i,
        {
            if self.books[i].id == id && self.check_owns_shelf(user, self.books[i].shelf_id) {
                let row = self.books[i].duplicate();
                let changed = apply_patch(row, &patch);
                if first.is_none() {
                    first = Some(changed.duplicate());
                    proof {
                        first_at = i as int;
                    }
                }
                self.books.set(i, changed);
            }
            i = i + 1;
        }
        assert(self.books@ =~= old(self).patched_books(user, id, patch));
        assert(book_ids(self.books@) =~= book_ids(old(self).books@));
        match first {
            Some(k) => {
                assert(0 <= first_at < before.len() && before[first_at].id == id && old(self).owns_shelf(
                    user,
                    before[first_at].shelf_id,
                ) && (forall|j: int|
                    0 <= j < first_at ==> !(before[j].id == id && old(self).owns_shelf(
                        user,
                        before[j].shelf_id,
                    ))) && k == patched(before[first_at], patch));
                Ok(k)
            },
            None => {
                assert(self.books@ =~= before);
                Err(AppError::bad_request("Book not found".to_owned()))
            },
        }
    }
}

/// `k` with the fields of `patch` that are given.
pub fn apply_patch(k: Book, patch: &BookPatch) -> (r: Book)
    ensures
        r == patched(k, *patch),
        carries_patch(r, k, *patch),
        r.shelf_id == k.shelf_id,
        r.position == k.position,
{
    Book {
        id: k.id,
        shelf_id: k.shelf_id,
        title: match &patch.title {
            Some(v) => v.clone(),
            None => k.title,
        },
        author: match &patch.author {
            Some(v) => v.clone(),
            None => k.author,
        },
        color: match &patch.color {
            Some(v) => v.clone(),
            None => k.color,
        },
        position: k.position,
        open_library_url: match &patch.open_library_url {
            Some(v) => Some(v.clone()),
            None => k.open_library_url,
        },
        cover_url: match &patch.cover_url {
            Some(v) => Some(v.clone()),
            None => k.cover_url,
        },
        created_at: k.created_at,
    }
}

/// `k` on the shelf `shelf_id` at position `p`.
pub fn place_book(k: Book, shelf_id: Id, p: i32) -> (r: Book)
    ensures
        r == book_placed(k, shelf_id, p),
{
    Book {
        id: k.id,
        shelf_id,
        title: k.title,
        author: k.author,
        color: k.color,
        position: p,
        open_library_url: k.open_library_url,
        cover_url: k.cover_url,
        created_at: k.created_at,
    }
}

/// After an accepted reordering, the books of the shelf are listed in the order
/// that was asked for.
pub proof fn lemma_reorder_books_then_list(before: Catalog, after: Catalog, user: Id, shelf_id: Id, ids: Seq<Id>)
    requires
        before.wf(),
        ids.len() <= i32::MAX + 1,
        before.owns_shelf(user, shelf_id),
        same_members(ids, book_ids(before.shelf_books(shelf_id))),
        after.books@ == before.books@.map_values(book_repositioned(ids)),
    ensures
        book_ids(after.book_listing(shelf_id)) == ids,
{
    broadcast use {vstd::seq_lib::group_to_multiset_ensures, vstd::multiset::group_multiset_axioms};

    let b = before.books@;
    let p = on_shelf(shelf_id);
    let f = book_repositioned(ids);
    let o = before.shelf_books(shelf_id);
    let o2 = after.shelf_books(shelf_id);
    lemma_filter_map_commute(b, p, f);
    assert(o2 == o.map_values(f));
    lemma_filter_member(b, p);
    let key = |x: Book| x.id;
    assert forall|i: int, j: int| 0 <= i < b.len() && 0 <= j < b.len() && i != j implies key(b[i]) != key(
        b[j],
    ) by {
        assert(book_ids(b)[i] == b[i].id && book_ids(b)[j] == b[j].id);
    }
    lemma_filter_distinct(b, p, key);
    let oid = book_ids(o);
    assert(ids.len() == o.len()) by {
        assert(ids.to_multiset().len() == oid.to_multiset().len());
    }
    assert forall|t: int| 0 <= t < o.len() implies ids.contains(#[trigger] o[t].id) by {
        assert(oid[t] == o[t].id);
        assert(oid.contains(o[t].id));
        assert(oid.to_multiset().count(o[t].id) > 0);
    }
    let keys = book_positions(o2);
    assert forall|t: int| 0 <= t < o.len() implies {
        &&& 0 <= last_index_of(ids, o[t].id) < ids.len()
        &&& ids[last_index_of(ids, o[t].id)] == o[t].id
        &&& #[trigger] keys[t] == last_index_of(ids, o[t].id)
    } by {
        lemma_last_index_of(ids, o[t].id);
        assert(o2[t] == f(o[t]));
    }
    assert forall|i: int| 0 <= i < keys.len() implies 0 <= #[trigger] keys[i] < keys.len() by {}
    assert forall|i: int, j: int| 0 <= i < keys.len() && 0 <= j < keys.len() && i != j implies keys[i]
        != keys[j] by {
        assert(keys[i] == last_index_of(ids, o[i].id));
        assert(keys[j] == last_index_of(ids, o[j].id));
        assert(key(o[i]) != key(o[j]));
    }
    lemma_ordering_of_permutation(keys);
    lemma_ordering_props(keys, keys.len());
    let ord = ordering(keys, keys.len());
    let l = after.book_listing(shelf_id);
    assert(l.len() == ids.len());
    assert forall|k: int| 0 <= k < ids.len() implies book_ids(l)[k] == ids[k] by {
        assert(ord.contains(ord[k]));
        let t = ord[k] as int;
        assert(keys[t] == k);
        assert(l[k] == o2[t]);
        assert(o2[t] == f(o[t]));
        assert(keys[t] == last_index_of(ids, o[t].id));
    }
    assert(book_ids(l) =~= ids);
}

/// A book that was just added to a shelf comes last in the listing of that shelf.
pub proof fn lemma_add_book_then_list(before: Catalog, after: Catalog, shelf_id: Id, k: Book)
    requires
        after.books@ == before.books@.push(k),
        k.shelf_id == shelf_id,
        k.position == next_position(book_positions(before.shelf_books(shelf_id))),
    ensures
        after.book_listing(shelf_id) == before.book_listing(shelf_id).push(k),
{
    let p = on_shelf(shelf_id);
    let o = before.shelf_books(shelf_id);
    let o2 = after.shelf_books(shelf_id);
    before.books@.lemma_filter_push(k, p);
    assert(o2 == o.push(k));
    let keys = book_positions(o);
    let keys2 = book_positions(o2);
    assert(keys2 =~= keys.push(k.position));
    let n = o.len();
    crate::arrange::lemma_next_position(keys);
    assert(n < usize::MAX) by {
        crate::seqs::lemma_filter_len(before.books@, p);
        assert(after.books@.len() == after.books.len());
    }
    crate::order::lemma_ordering_push_max(keys2, n);
    crate::order::lemma_ordering_same_prefix(keys2, keys, n);
    lemma_ordering_props(keys, n);
    let ord = ordering(keys, n);
    assert(ordering(keys2, keys2.len()) == ord.push(n as usize));
    assert forall|t: int| 0 <= t < ord.len() implies ord[t] < n by {
        assert(ord.contains(ord[t]));
    }
    assert(after.book_listing(shelf_id) =~= before.book_listing(shelf_id).push(k));
}

/// Changing a book in place keeps the listing of every shelf in its order, with
/// the changed book.
pub proof fn lemma_patch_then_list(
    before: Catalog,
    after: Catalog,
    user: Id,
    id: Id,
    patch: BookPatch,
    shelf_id: Id,
)
    requires
        after.books@ == before.patched_books(user, id, patch),
    ensures
        after.book_listing(shelf_id) == before.book_listing(shelf_id).map_values(
            before.book_patched(user, id, patch),
        ),
{
    let f = before.book_patched(user, id, patch);
    let p = on_shelf(shelf_id);
    let o = before.shelf_books(shelf_id);
    assert(after.books@ =~= before.books@.map_values(f));
    lemma_filter_map_commute(before.books@, p, f);
    assert(after.shelf_books(shelf_id) == o.map_values(f));
    let keys = book_positions(o);
    assert(book_positions(o.map_values(f)) =~= keys);
    assert(o.len() <= usize::MAX) by {
        crate::seqs::lemma_filter_len(before.books@, p);
        assert(before.books@.len() == before.books.len());
    }
    lemma_ordering_props(keys, keys.len());
    let ord = ordering(keys, keys.len());
    assert forall|k: int| 0 <= k < ord.len() implies ord[k] < o.len() by {
        assert(ord.contains(ord[k]));
    }
    assert(after.book_listing(shelf_id) =~= before.book_listing(shelf_id).map_values(f));
}

/// The positions of the rows, in order.
pub fn book_position_list(rows: &Vec<Book>) -> (p: Vec<i32>)
    ensures
        p@ == book_positions(rows@),
{
    let mut p: Vec<i32> = Vec::new();
    let mut i: usize = 0;
    while i < rows.len()
        invariant
            i <= rows.len(),
            p@ =~= book_positions(rows@.take(i as int)),
        decreases rows.len() - i,
    {
        p.push(rows[i].position);
        i = i + 1;
    }
    assert(rows@.take(rows.len() as int) == rows@);
    p
}

/// The identifiers of the rows, in order.
pub fn book_id_list(rows: &Vec<Book>) -> (p: Vec<Id>)
    ensures
        p@ == book_ids(rows@),
{
    let mut p: Vec<Id> = Vec::new();
    let mut i: usize = 0;
    while i < rows.len()
        invariant
            i <= rows.len(),
            p@ =~= book_ids(rows@.take(i as int)),
        decreases rows.len() - i,
    {
        p.push(rows[i].id);
        i = i + 1;
    }
    assert(rows@.take(rows.len() as int) == rows@);
    p
}

} // verus!

verus! {

/// A book moved to a shelf comes last in the listing of that shelf.
pub proof fn lemma_move_then_list(before: Catalog, after: Catalog, user: Id, id: Id, patch: BookPatch, t: Id)
    requires
        before.wf(),
        before.owns_book(user, id),
        next_position(book_positions(before.shelf_books(t))) <= i32::MAX,
        after.books@ == before.moved_books(id, patch, t, next_position(book_positions(before.shelf_books(t))) as i32),
    ensures
        after.book_listing(t).len() > 0,
        after.book_listing(t).last().id == id,
{
    let np = next_position(book_positions(before.shelf_books(t)));
    let b = before.books@;
    let a = after.books@;
    let p = on_shelf(t);
    let o = before.shelf_books(t);
    let o2 = after.shelf_books(t);
    let w = choose|w: int| 0 <= w < b.len() && #[trigger] b[w].id == id && before.owns_shelf(user, b[w].shelf_id);
    assert(a[w].id == id && a[w].shelf_id == t && a[w].position == np as i32);
    crate::seqs::lemma_filter_keeps(a, p, w);
    crate::seqs::lemma_filter_member(a, p);
    crate::seqs::lemma_filter_member(b, p);
    let m = choose|m: int| 0 <= m < o2.len() && o2[m] == a[w];
    assert(book_ids(a) =~= book_ids(b));
    let key = |x: Book| x.id;
    assert forall|i: int, j: int| 0 <= i < a.len() && 0 <= j < a.len() && i != j implies key(a[i]) != key(a[j]) by {
        assert(book_ids(a)[i] == a[i].id && book_ids(a)[j] == a[j].id);
    }
    lemma_filter_distinct(a, p, key);
    let keys = book_positions(o);
    let keys2 = book_positions(o2);
    crate::arrange::lemma_next_position(keys);
    assert forall|i: int| 0 <= i < keys2.len() && i != m implies keys2[i] < keys2[m] by {
        assert(key(o2[i]) != key(o2[m]));
        assert(o2[i].shelf_id == t);
        assert(a.contains(o2[i]));
        let j = choose|j: int| 0 <= j < a.len() && a[j] == o2[i];
        assert(b[j].id != id);
        assert(a[j] == b[j]);
        crate::seqs::lemma_filter_keeps(b, p, j);
        let q = choose|q: int| 0 <= q < o.len() && o[q] == b[j];
        assert(keys[q] == o2[i].position);
    }
    assert(o2.len() <= usize::MAX) by {
        crate::seqs::lemma_filter_len(a, p);
        assert(after.books@.len() == after.books.len());
    }
    crate::order::lemma_ordering_last_is_max(keys2, m);
}

} // verus!

verus! {

/// Changing a book in place: the user's rows with that identifier carry the
/// patch and keep their shelf and position; every other row is unchanged.
pub proof fn lemma_patched_rows(before: Catalog, after: Catalog, user: Id, id: Id, patch: BookPatch)
    requires
        after.books@ == before.patched_books(user, id, patch),
    ensures
        after.books@.len() == before.books@.len(),
        forall|i: int|
            0 <= i < before.books@.len() ==> if before.books@[i].id == id && before.owns_shelf(
                user,
                before.books@[i].shelf_id,
            ) {
                &&& carries_patch(#[trigger] after.books@[i], before.books@[i], patch)
                &&& after.books@[i].shelf_id == before.books@[i].shelf_id
                &&& after.books@[i].position == before.books@[i].position
            } else {
                after.books@[i] == before.books@[i]
            },
{
}

/// Moving a book: the rows with that identifier carry the patch and stand on
/// the target shelf at the given position; every other row is unchanged.
pub proof fn lemma_moved_rows(before: Catalog, after: Catalog, id: Id, patch: BookPatch, shelf_id: Id, p: i32)
    requires
        after.books@ == before.moved_books(id, patch, shelf_id, p),
    ensures
        after.books@.len() == before.books@.len(),
        forall|i: int|
            0 <= i < before.books@.len() ==> if before.books@[i].id == id {
                &&& carries_patch(#[trigger] after.books@[i], before.books@[i], patch)
                &&& after.books@[i].shelf_id == shelf_id
                &&& after.books@[i].position == p
            } else {
                after.books@[i] == before.books@[i]
            },
{
}

} // verus!
