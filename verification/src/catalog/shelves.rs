use vstd::prelude::*;

use crate::arrange::{arrange, arranged, next_position};
use crate::catalog::{only_shelves_differ, same_contents, Catalog};
use crate::error::{AppError, BAD_REQUEST, INTERNAL_SERVER_ERROR};
use crate::ids::{find_last, last_index_of, lemma_last_index_of, same_ids, same_members, Id};
use crate::order::{lemma_ordering_of_permutation, lemma_ordering_props, ordering};
use crate::rows::{shelf_ids, shelf_positions, Row, Shelf};
use crate::seqs::{lemma_filter_distinct, lemma_filter_map_commute, lemma_filter_member};

verus! {

/// The shelves of the bookcase `bookcase_id`.
pub open spec fn in_bookcase(bookcase_id: Id) -> spec_fn(Shelf) -> bool {
    |s: Shelf| s.bookcase_id == bookcase_id
}

/// `s` at position `p`.
pub open spec fn shelf_at(s: Shelf, p: i32) -> Shelf {
    Shelf { id: s.id, bookcase_id: s.bookcase_id, name: s.name, position: p, created_at: s.created_at }
}

/// `s` under the name `name`.
pub open spec fn shelf_named(s: Shelf, name: String) -> Shelf {
    Shelf { id: s.id, bookcase_id: s.bookcase_id, name: name, position: s.position, created_at: s.created_at }
}

/// A shelf after the order `ids` was asked for: a shelf named there takes the
/// place of its (last) mention as its position.
pub open spec fn shelf_repositioned(ids: Seq<Id>) -> spec_fn(Shelf) -> Shelf {
    |s: Shelf|
        if ids.contains(s.id) {
            shelf_at(s, last_index_of(ids, s.id) as i32)
        } else {
            s
        }
}

impl Catalog {
    /// The shelves of the bookcase `bookcase_id`, in the order they were added.
    pub open spec fn bookcase_shelves(&self, bookcase_id: Id) -> Seq<Shelf> {
        self.shelves@.filter(in_bookcase(bookcase_id))
    }

    /// The shelves of the bookcase `bookcase_id`, ordered by position.
    pub open spec fn shelf_listing(&self, bookcase_id: Id) -> Seq<Shelf> {
        arranged(self.bookcase_shelves(bookcase_id), shelf_positions(self.bookcase_shelves(bookcase_id)))
    }

    /// The shelf `id` stands in a bookcase of `user`.
    pub open spec fn owns_shelf(&self, user: Id, id: Id) -> bool {
        exists|i: int|
            0 <= i < self.shelves@.len() && #[trigger] self.shelves@[i].id == id && self.owns_bookcase(
                user,
                self.shelves@[i].bookcase_id,
            )
    }

    /// The shelves after the shelf `id` of `user` was renamed to `name`.
    pub open spec fn renamed_shelves(&self, user: Id, id: Id, name: String) -> Seq<Shelf> {
        Seq::new(
            self.shelves@.len(),
            |i: int|
                {
                    let s = self.shelves@[i];
                    if s.id == id && self.owns_bookcase(user, s.bookcase_id) {
                        shelf_named(s, name)
                    } else {
                        s
                    }
                },
        )
    }

    /// A shelf after the shelf `id` of `user` was renamed `name`.
    pub open spec fn shelf_renamed(&self, user: Id, id: Id, name: String) -> spec_fn(Shelf) -> Shelf {
        |s: Shelf|
            if s.id == id && self.owns_bookcase(user, s.bookcase_id) {
                shelf_named(s, name)
            } else {
                s
            }
    }

    /// The shelves of the bookcase `bookcase_id`, in the order they were added.
    pub fn collect_bookcase_shelves(&self, bookcase_id: Id) -> (r: Vec<Shelf>)
        ensures
            r@ == self.bookcase_shelves(bookcase_id),
    {
        let mut r: Vec<Shelf> = Vec::new();
        let mut i: usize = 0;
        while i < self.shelves.len()
            invariant
                i <= self.shelves.len(),
                r@ == self.shelves@.take(i as int).filter(in_bookcase(bookcase_id)),
            decreases self.shelves.len() - i,
        {
            proof {
                let s = self.shelves@;
                assert(s.take(i + 1) == s.take(i as int).push(s[i as int]));
                s.take(i as int).lemma_filter_push(s[i as int], in_bookcase(bookcase_id));
            }
            if self.shelves[i].bookcase_id == bookcase_id {
                r.push(self.shelves[i].duplicate());
            }
            i = i + 1;
        }
        assert(self.shelves@.take(self.shelves.len() as int) == self.shelves@);
        r
    }

    /// Whether the shelf `id` stands in a bookcase of `user`.
    pub fn check_owns_shelf(&self, user: Id, id: Id) -> (r: bool)
        ensures
            r == self.owns_shelf(user, id),
    {
        let mut i: usize = 0;
        while i < self.shelves.len()
            invariant
                i <= self.shelves.len(),
                forall|t: int|
                    0 <= t < i ==> !(self.shelves@[t].id == id && self.owns_bookcase(
                        user,
                        self.shelves@[t].bookcase_id,
                    )),
            decreases self.shelves.len() - i,
        {
            if self.shelves[i].id == id && self.check_owns_bookcase(user, self.shelves[i].bookcase_id) {
                return true;
            }
            i = i + 1;
        }
        false
    }

    /// Whether a shelf with identifier `id` is stored.
    pub fn has_shelf_id(&self, id: Id) -> (r: bool)
        ensures
            r == shelf_ids(self.shelves@).contains(id),
    {
        let mut i: usize = 0;
        while i < self.shelves.len()
            invariant
                i <= self.shelves.len(),
                forall|t: int| 0 <= t < i ==> self.shelves@[t].id != id,
            decreases self.shelves.len() - i,
        {
            if self.shelves[i].id == id {
                assert(shelf_ids(self.shelves@)[i as int] == id);
                return true;
            }
            i = i + 1;
        }
        assert forall|t: int| 0 <= t < shelf_ids(self.shelves@).len() implies shelf_ids(self.shelves@)[t]
            != id by {}
        false
    }

    /// The shelves of the bookcase `bookcase_id` of `user`, ordered by position;
    /// none when the bookcase is not theirs.
    pub fn list_shelves(&self, user: Id, bookcase_id: Id) -> (r: Vec<Shelf>)
        ensures
            r@ == if self.owns_bookcase(user, bookcase_id) {
                self.shelf_listing(bookcase_id)
            } else {
                Seq::empty()
            },
    {
        if !self.check_owns_bookcase(user, bookcase_id) {
            return Vec::new();
        }
        let rows = self.collect_bookcase_shelves(bookcase_id);
        let keys = shelf_position_list(&rows);
        arrange(&rows, &keys)
    }

    /// Adds a shelf named `name` after the last shelf of the bookcase `bookcase_id`
    /// of `user`. Refused (400, "Bookcase not found") when the bookcase is not
    /// theirs; a server error when the identifier is taken or the next position
    /// does not fit. A failure changes nothing.
    pub fn create_shelf(
        &mut self,
        user: Id,
        bookcase_id: Id,
        name: String,
        id: Id,
        created_at: i64,
    ) -> (r: Result<Shelf, AppError>)
        ensures
            r is Ok <==> (old(self).owns_bookcase(user, bookcase_id) && !shelf_ids(old(self).shelves@).contains(
                id,
            ) && next_position(shelf_positions(old(self).bookcase_shelves(bookcase_id))) <= i32::MAX),
            match r {
                Ok(s) => {
                    &&& s == (Shelf {
                        id: id,
                        bookcase_id: bookcase_id,
                        name: name,
                        position: next_position(shelf_positions(old(self).bookcase_shelves(bookcase_id))) as i32,
                        created_at: created_at,
                    })
                    &&& final(self).shelves@ == old(self).shelves@.push(s)
                    &&& only_shelves_differ(*old(self), *final(self))
                    &&& old(self).wf() ==> final(self).wf()
                },
                Err(e) => {
                    &&& e.status == (if old(self).owns_bookcase(user, bookcase_id) {
                        INTERNAL_SERVER_ERROR
                    } else {
                        BAD_REQUEST
                    })
                    &&& !old(self).owns_bookcase(user, bookcase_id) ==> e.message@ == "Bookcase not found"@
                    &&& same_contents(*old(self), *final(self))
                },
            },
    {
        if !self.check_owns_bookcase(user, bookcase_id) {
            return Err(AppError::bad_request("Bookcase not found".to_owned()));
        }
        if self.has_shelf_id(id) {
            return Err(AppError::internal("the shelf identifier is taken".to_owned()));
        }
        let rows = self.collect_bookcase_shelves(bookcase_id);
        let keys = shelf_position_list(&rows);
        match crate::arrange::compute_next_position(&keys) {
            None => Err(AppError::internal("integer out of range".to_owned())),
            Some(p) => {
                let s = Shelf { id, bookcase_id, name, position: p, created_at };
                self.shelves.push(s.duplicate());
                assert(shelf_ids(self.shelves@) =~= shelf_ids(old(self).shelves@).push(id));
                Ok(s)
            },
        }
    }

    /// Renames the shelf `id` of `user`. Refused (400, "Shelf not found") when no
    /// such shelf stands in a bookcase of theirs; then nothing changes.
    pub fn update_shelf(&mut self, user: Id, id: Id, name: String) -> (r: Result<Shelf, AppError>)
        ensures
            r is Ok <==> old(self).owns_shelf(user, id),
            match r {
                Ok(s) => {
                    &&& final(self).shelves@ == old(self).renamed_shelves(user, id, name)
                    &&& only_shelves_differ(*old(self), *final(self))
                    &&& shelf_ids(final(self).shelves@) == shelf_ids(old(self).shelves@)
                    &&& old(self).wf() ==> final(self).wf()
                    &&& exists|i: int|
                        0 <= i < old(self).shelves@.len() && old(self).shelves@[i].id == id
                            && old(self).owns_bookcase(user, old(self).shelves@[i].bookcase_id)
                            && (forall|j: int|
                            0 <= j < i ==> !(old(self).shelves@[j].id == id && old(self).owns_bookcase(
                                user,
                                old(self).shelves@[j].bookcase_id,
                            ))) && s == shelf_named(old(self).shelves@[i], name)
                },
                Err(e) => {
                    &&& e.status == BAD_REQUEST
                    &&& e.message@ == "Shelf not found"@
                    &&& same_contents(*old(self), *final(self))
                },
            },
            r matches Ok(s) ==> {
                &&& s.id == id
                &&& s.name == name
                &&& final(self).shelves@.contains(s)
            },
    {
        let ghost before = self.shelves@;
        let mut first: Option<Shelf> = None;
        let ghost mut first_at: int = -1;
        let mut i: usize = 0;
        while i < self.shelves.len()
            invariant
                i <= self.shelves.len(),
                self.shelves@.len() == before.len(),
                before == old(self).shelves@,
                forall|t: int| 0 <= t < i ==> self.shelves@[t] == old(self).renamed_shelves(user, id, name)[t],
                forall|t: int| i <= t < before.len() ==> self.shelves@[t] == before[t],
                self.users@ == old(self).users@,
                self.accounts@ == old(self).accounts@,
                self.bookcases@ == old(self).bookcases@,
                self.books@ == old(self).books@,
                match first {
                    None => forall|t: int|
                        0 <= t < i ==> !(before[t].id == id && old(self).owns_bookcase(user, before[t].bookcase_id)),
                    Some(s) => {
                        &&& 0 <= first_at < i
                        &&& before[first_at].id == id && old(self).owns_bookcase(user, before[first_at].bookcase_id)
                        &&& forall|j: int|
                            0 <= j < first_at ==> !(before[j].id == id && old(self).owns_bookcase(
                                user,
                                before[j].bookcase_id,
                            ))
                        &&& s == shelf_named(before[first_at], name)
                    },
                },
            decreases before.len() - i,
        {
            if self.shelves[i].id == id && self.check_owns_bookcase(user, self.shelves[i].bookcase_id) {
                let old_row = self.shelves[i].duplicate();
                let row = Shelf {
                    id: old_row.id,
                    bookcase_id: old_row.bookcase_id,
                    name: name.clone(),
                    position: old_row.position,
                    created_at: old_row.created_at,
                };
                if first.is_none() {
                    first = Some(row.duplicate());
                    proof {
                        first_at = i as int;
                    }
                }
                self.shelves.set(i, row);
            }
            i = i + 1;
        }
        assert(self.shelves@ =~= old(self).renamed_shelves(user, id, name));
        assert(shelf_ids(self.shelves@) =~= shelf_ids(old(self).shelves@));
        match first {
            Some(s) => {
                assert(0 <= first_at < before.len() && before[first_at].id == id && old(self).owns_bookcase(
                    user,
                    before[first_at].bookcase_id,
                ) && (forall|j: int|
                    0 <= j < first_at ==> !(before[j].id == id && old(self).owns_bookcase(
                        user,
                        before[j].bookcase_id,
                    ))) && s == shelf_named(before[first_at], name));
                assert(self.shelves@[first_at] == s);
                assert(self.shelves@.contains(s));
                Ok(s)
            },
            None => {
                assert(self.shelves@ =~= before);
                Err(AppError::bad_request("Shelf not found".to_owned()))
            },
        }
    }

    /// Puts the shelves of the bookcase `bookcase_id` of `user` in the order `ids`:
    /// refused (400) unless `ids` names each of its shelves exactly once (a bookcase
    /// that is not theirs has none); otherwise the shelf named at place `k` gets
    /// position `k`.
    pub fn reorder_shelves(&mut self, user: Id, bookcase_id: Id, ids: &Vec<Id>) -> (r: Result<
        (),
        AppError,
    >)
        ensures
            r is Ok <==> same_members(
                ids@,
                if old(self).owns_bookcase(user, bookcase_id) {
                    shelf_ids(old(self).bookcase_shelves(bookcase_id))
                } else {
                    Seq::empty()
                },
            ),
            match r {
                Ok(_) => {
                    &&& final(self).shelves@ == old(self).shelves@.map_values(shelf_repositioned(ids@))
                    &&& only_shelves_differ(*old(self), *final(self))
                    &&& shelf_ids(final(self).shelves@) == shelf_ids(old(self).shelves@)
                    &&& old(self).wf() ==> final(self).wf()
                },
                Err(e) => {
                    &&& e.status == BAD_REQUEST
                    &&& e.message@ == "Provided IDs do not match the bookcase's shelves exactly"@
                    &&& same_contents(*old(self), *final(self))
                },
            },
    {
        let existing: Vec<Id> = if self.check_owns_bookcase(user, bookcase_id) {
            let rows = self.collect_bookcase_shelves(bookcase_id);
            shelf_id_list(&rows)
        } else {
            let v: Vec<Id> = Vec::new();
            v
        };
        if !same_ids(ids, &existing) {
            return Err(
                AppError::bad_request("Provided IDs do not match the bookcase's shelves exactly".to_owned()),
            );
        }
        let ghost before = self.shelves@;
        let mut i: usize = 0;
        while i < self.shelves.len()
            invariant
                i <= self.shelves.len(),
                self.shelves@.len() == before.len(),
                before == old(self).shelves@,
                forall|t: int|
                    0 <= t < i ==> self.shelves@[t] == old(self).shelves@.map_values(shelf_repositioned(ids@))[t],
                forall|t: int| i <= t < before.len() ==> self.shelves@[t] == before[t],
                self.users@ == old(self).users@,
                self.accounts@ == old(self).accounts@,
                self.bookcases@ == old(self).bookcases@,
                self.books@ == old(self).books@,
            decreases before.len() - i,
        {
            proof {
                lemma_last_index_of(ids@, before[i as int].id);
            }
            match find_last(ids, self.shelves[i].id) {
                Some(k) => {
                    let old_row = self.shelves[i].duplicate();
                    let row = Shelf {
                        id: old_row.id,
                        bookcase_id: old_row.bookcase_id,
                        name: old_row.name,
                        position: k as i32,
                        created_at: old_row.created_at,
                    };
                    self.shelves.set(i, row);
                },
                None => {},
            }
            i = i + 1;
        }
        assert(self.shelves@ =~= old(self).shelves@.map_values(shelf_repositioned(ids@)));
        assert(shelf_ids(self.shelves@) =~= shelf_ids(old(self).shelves@));
        Ok(())
    }
}

/// After an accepted reordering, the shelves of the bookcase are listed in the
/// order that was asked for.
pub proof fn lemma_reorder_shelves_then_list(
    before: Catalog,
    after: Catalog,
    user: Id,
    bookcase_id: Id,
    ids: Seq<Id>,
)
    requires
        before.wf(),
        ids.len() <= i32::MAX + 1,
        before.owns_bookcase(user, bookcase_id),
        same_members(ids, shelf_ids(before.bookcase_shelves(bookcase_id))),
        after.shelves@ == before.shelves@.map_values(shelf_repositioned(ids)),
    ensures
        shelf_ids(after.shelf_listing(bookcase_id)) == ids,
{
    broadcast use {vstd::seq_lib::group_to_multiset_ensures, vstd::multiset::group_multiset_axioms};

    let b = before.shelves@;
    let p = in_bookcase(bookcase_id);
    let f = shelf_repositioned(ids);
    let o = before.bookcase_shelves(bookcase_id);
    let o2 = after.bookcase_shelves(bookcase_id);
    lemma_filter_map_commute(b, p, f);
    assert(o2 == o.map_values(f));
    lemma_filter_member(b, p);
    let key = |x: Shelf| x.id;
    assert forall|i: int, j: int| 0 <= i < b.len() && 0 <= j < b.len() && i != j implies key(b[i]) != key(
        b[j],
    ) by {
        assert(shelf_ids(b)[i] == b[i].id && shelf_ids(b)[j] == b[j].id);
    }
    lemma_filter_distinct(b, p, key);
    let oid = shelf_ids(o);
    assert(ids.len() == o.len()) by {
        assert(ids.to_multiset().len() == oid.to_multiset().len());
    }
    assert forall|t: int| 0 <= t < o.len() implies ids.contains(#[trigger] o[t].id) by {
        assert(oid[t] == o[t].id);
        assert(oid.contains(o[t].id));
        assert(oid.to_multiset().count(o[t].id) > 0);
    }
    let keys = shelf_positions(o2);
    assert forall|t: int| 0 <= t < o.len() implies {
        &&& 0 <= last_index_of(ids, o[t].id) < ids.len()
        &&& ids[last_index_of(ids, o[t].id)] == o[t].id
        &&& #[trigger] keys[t] == last_index_of(ids, o[t].id)
    } by {
        lemma_last_index_of(ids, o[t].id);
        assert(o2[t] == f(o[t]));
    }
    assert forall|i: int| 0 <= i < keys.len() implies 0 <= #[trigger] keys[i] < keys.len() by {}
    assert forall|i: int, j: int| 0 <= i < keys.len() && 0 <= j < keys.len() && i != j implies keys[i]
        != keys[j] by {
        assert(keys[i] == last_index_of(ids, o[i].id));
        assert(keys[j] == last_index_of(ids, o[j].id));
        assert(key(o[i]) != key(o[j]));
    }
    lemma_ordering_of_permutation(keys);
    lemma_ordering_props(keys, keys.len());
    let ord = ordering(keys, keys.len());
    let l = after.shelf_listing(bookcase_id);
    assert(l.len() == ids.len());
    assert forall|k: int| 0 <= k < ids.len() implies shelf_ids(l)[k] == ids[k] by {
        assert(ord.contains(ord[k]));
        let t = ord[k] as int;
        assert(keys[t] == k);
        assert(l[k] == o2[t]);
        assert(o2[t] == f(o[t]));
        assert(keys[t] == last_index_of(ids, o[t].id));
    }
    assert(shelf_ids(l) =~= ids);
}

/// A shelf that was just created comes last in the listing of its bookcase.
pub proof fn lemma_create_shelf_then_list(before: Catalog, after: Catalog, bookcase_id: Id, s: Shelf)
    requires
        after.shelves@ == before.shelves@.push(s),
        s.bookcase_id == bookcase_id,
        s.position == next_position(shelf_positions(before.bookcase_shelves(bookcase_id))),
    ensures
        after.shelf_listing(bookcase_id) == before.shelf_listing(bookcase_id).push(s),
{
    let p = in_bookcase(bookcase_id);
    let o = before.bookcase_shelves(bookcase_id);
    let o2 = after.bookcase_shelves(bookcase_id);
    before.shelves@.lemma_filter_push(s, p);
    assert(o2 == o.push(s));
    let keys = shelf_positions(o);
    let keys2 = shelf_positions(o2);
    assert(keys2 =~= keys.push(s.position));
    let n = o.len();
    crate::arrange::lemma_next_position(keys);
    assert(n < usize::MAX) by {
        crate::seqs::lemma_filter_len(before.shelves@, p);
        assert(after.shelves@.len() == after.shelves.len());
    }
    crate::order::lemma_ordering_push_max(keys2, n);
    crate::order::lemma_ordering_same_prefix(keys2, keys, n);
    lemma_ordering_props(keys, n);
    let ord = ordering(keys, n);
    assert(ordering(keys2, keys2.len()) == ord.push(n as usize));
    assert forall|k: int| 0 <= k < ord.len() implies ord[k] < n by {
        assert(ord.contains(ord[k]));
    }
    assert(after.shelf_listing(bookcase_id) =~= before.shelf_listing(bookcase_id).push(s));
}

/// Renaming a shelf keeps the listing of every bookcase in its order, with the
/// new name.
pub proof fn lemma_rename_shelf_then_list(
    before: Catalog,
    after: Catalog,
    user: Id,
    id: Id,
    name: String,
    bookcase_id: Id,
)
    requires
        after.shelves@ == before.renamed_shelves(user, id, name),
    ensures
        after.shelf_listing(bookcase_id) == before.shelf_listing(bookcase_id).map_values(
            before.shelf_renamed(user, id, name),
        ),
{
    let f = before.shelf_renamed(user, id, name);
    let p = in_bookcase(bookcase_id);
    let o = before.bookcase_shelves(bookcase_id);
    assert(after.shelves@ =~= before.shelves@.map_values(f));
    lemma_filter_map_commute(before.shelves@, p, f);
    assert(after.bookcase_shelves(bookcase_id) == o.map_values(f));
    let keys = shelf_positions(o);
    assert(shelf_positions(o.map_values(f)) =~= keys);
    assert(o.len() <= usize::MAX) by {
        crate::seqs::lemma_filter_len(before.shelves@, p);
        assert(before.shelves@.len() == before.shelves.len());
    }
    lemma_ordering_props(keys, keys.len());
    let ord = ordering(keys, keys.len());
    assert forall|k: int| 0 <= k < ord.len() implies ord[k] < o.len() by {
        assert(ord.contains(ord[k]));
    }
    assert(after.shelf_listing(bookcase_id) =~= before.shelf_listing(bookcase_id).map_values(f));
}

/// The positions of the rows, in order.
pub fn shelf_position_list(rows: &Vec<Shelf>) -> (p: Vec<i32>)
    ensures
        p@ == shelf_positions(rows@),
{
    let mut p: Vec<i32> = Vec::new();
    let mut i: usize = 0;
    while i < rows.len()
        invariant
            i <= rows.len(),
            p@ =~= shelf_positions(rows@.take(i as int)),
        decreases rows.len() - i,
    {
        p.push(rows[i].position);
        i = i + 1;
    }
    assert(rows@.take(rows.len() as int) == rows@);
    p
}

/// The identifiers of the rows, in order.
pub fn shelf_id_list(rows: &Vec<Shelf>) -> (p: Vec<Id>)
    ensures
        p@ == shelf_ids(rows@),
{
    let mut p: Vec<Id> = Vec::new();
    let mut i: usize = 0;
    while i < rows.len()
        invariant
            i <= rows.len(),
            p@ =~= shelf_ids(rows@.take(i as int)),
        decreases rows.len() - i,
    {
        p.push(rows[i].id);
        i = i + 1;
    }
    assert(rows@.take(rows.len() as int) == rows@);
    p
}

} // verus!

verus! {

/// Renaming a shelf: the rows with that identifier in a bookcase of the user
/// take the new name and keep their bookcase, position and creation time; every
/// other row is unchanged.
pub proof fn lemma_renamed_shelf_rows(before: Catalog, after: Catalog, user: Id, id: Id, name: String)
    requires
        after.shelves@ == before.renamed_shelves(user, id, name),
    ensures
        after.shelves@.len() == before.shelves@.len(),
        forall|i: int|
            0 <= i < before.shelves@.len() ==> if before.shelves@[i].id == id && before.owns_bookcase(
                user,
                before.shelves@[i].bookcase_id,
            ) {
                &&& (#[trigger] after.shelves@[i]).name == name
                &&& after.shelves@[i].id == id
                &&& after.shelves@[i].bookcase_id == before.shelves@[i].bookcase_id
                &&& after.shelves@[i].position == before.shelves@[i].position
                &&& after.shelves@[i].created_at == before.shelves@[i].created_at
            } else {
                after.shelves@[i] == before.shelves@[i]
            },
{
}

} // verus!
