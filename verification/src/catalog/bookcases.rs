use vstd::prelude::*;

use crate::arrange::{arrange, arranged, next_position};
use crate::catalog::{only_bookcases_differ, same_contents, Catalog};
use crate::error::{AppError, BAD_REQUEST, INTERNAL_SERVER_ERROR};
use crate::ids::{find_last, last_index_of, lemma_last_index_of, same_ids, same_members, Id};
use crate::order::{lemma_ordering_of_permutation, lemma_ordering_props, ordering};
use crate::rows::{bookcase_ids, bookcase_positions, user_ids, Bookcase, Row};
use crate::seqs::{lemma_filter_distinct, lemma_filter_map_commute, lemma_filter_member};

verus! {

/// The bookcases of `user`.
pub open spec fn of_owner(user: Id) -> spec_fn(Bookcase) -> bool {
    |b: Bookcase| b.user_id == user
}

/// `b` at position `p`.
pub open spec fn bookcase_at(b: Bookcase, p: i32) -> Bookcase {
    Bookcase { id: b.id, user_id: b.user_id, name: b.name, position: p, created_at: b.created_at }
}

/// `b` under the name `name`.
pub open spec fn bookcase_named(b: Bookcase, name: String) -> Bookcase {
    Bookcase { id: b.id, user_id: b.user_id, name: name, position: b.position, created_at: b.created_at }
}

/// A bookcase after `user` asked for the order `ids`.
pub open spec fn repositioned(user: Id, ids: Seq<Id>) -> spec_fn(Bookcase) -> Bookcase {
    |b: Bookcase|
        if b.user_id == user && ids.contains(b.id) {
            bookcase_at(b, last_index_of(ids, b.id) as i32)
        } else {
            b
        }
}

/// A bookcase after the bookcase `id` of `user` was renamed to `name`.
pub open spec fn renamed_to(user: Id, id: Id, name: String) -> spec_fn(Bookcase) -> Bookcase {
    |b: Bookcase|
        if b.id == id && b.user_id == user {
            bookcase_named(b, name)
        } else {
            b
        }
}

impl Catalog {
    /// The bookcases of `user`, in the order they were added.
    pub open spec fn user_bookcases(&self, user: Id) -> Seq<Bookcase> {
        self.bookcases@.filter(of_owner(user))
    }

    /// The bookcases of `user`, ordered by position.
    pub open spec fn bookcase_listing(&self, user: Id) -> Seq<Bookcase> {
        arranged(self.user_bookcases(user), bookcase_positions(self.user_bookcases(user)))
    }

    /// `user` has a bookcase with identifier `id`.
    pub open spec fn owns_bookcase(&self, user: Id, id: Id) -> bool {
        exists|i: int|
            0 <= i < self.bookcases@.len() && self.bookcases@[i].id == id && #[trigger] self.bookcases@[i].user_id
                == user
    }

    /// The bookcases after `user` asked for the order `ids`: each of their bookcases
    /// named there takes the place of its (last) mention as its position.
    pub open spec fn reordered_bookcases(&self, user: Id, ids: Seq<Id>) -> Seq<Bookcase> {
        self.bookcases@.map_values(repositioned(user, ids))
    }

    /// The bookcases after the bookcase `id` of `user` was renamed to `name`.
    pub open spec fn renamed_bookcases(&self, user: Id, id: Id, name: String) -> Seq<Bookcase> {
        self.bookcases@.map_values(renamed_to(user, id, name))
    }

    /// The bookcases of `user`, in the order they were added.
    pub fn collect_user_bookcases(&self, user: Id) -> (r: Vec<Bookcase>)
        ensures
            r@ == self.user_bookcases(user),
    {
        let mut r: Vec<Bookcase> = Vec::new();
        let mut i: usize = 0;
        while i < self.bookcases.len()
            invariant
                i <= self.bookcases.len(),
                r@ == self.bookcases@.take(i as int).filter(of_owner(user)),
            decreases self.bookcases.len() - i,
        {
            proof {
                let s = self.bookcases@;
                assert(s.take(i + 1) == s.take(i as int).push(s[i as int]));
                s.take(i as int).lemma_filter_push(s[i as int], of_owner(user));
            }
            if self.bookcases[i].user_id == user {
                r.push(self.bookcases[i].duplicate());
            }
            i = i + 1;
        }
        assert(self.bookcases@.take(self.bookcases.len() as int) == self.bookcases@);
        r
    }

    /// Whether `user` has a bookcase with identifier `id`.
    pub fn check_owns_bookcase(&self, user: Id, id: Id) -> (r: bool)
        ensures
            r == self.owns_bookcase(user, id),
    {
        let mut i: usize = 0;
        while i < self.bookcases.len()
            invariant
                i <= self.bookcases.len(),
                forall|t: int|
                    0 <= t < i ==> !(self.bookcases@[t].id == id && self.bookcases@[t].user_id == user),
            decreases self.bookcases.len() - i,
        {
            if self.bookcases[i].id == id && self.bookcases[i].user_id == user {
                return true;
            }
            i = i + 1;
        }
        false
    }

    /// Where the first bookcase `id` of `user` is stored, if any.
    pub fn find_owned_bookcase(&self, user: Id, id: Id) -> (r: Option<usize>)
        ensures
            match r {
                Some(i) => {
                    &&& i < self.bookcases@.len()
                    &&& self.bookcases@[i as int].id == id && self.bookcases@[i as int].user_id == user
                    &&& forall|j: int|
                        0 <= j < i ==> !(self.bookcases@[j].id == id && self.bookcases@[j].user_id == user)
                },
                None => !self.owns_bookcase(user, id),
            },
    {
        let mut i: usize = 0;
        while i < self.bookcases.len()
            invariant
                i <= self.bookcases.len(),
                forall|t: int|
                    0 <= t < i ==> !(self.bookcases@[t].id == id && self.bookcases@[t].user_id == user),
            decreases self.bookcases.len() - i,
        {
            if self.bookcases[i].id == id && self.bookcases[i].user_id == user {
                return Some(i);
            }
            i = i + 1;
        }
        None
    }

    /// Whether a bookcase with identifier `id` is stored.
    pub fn has_bookcase_id(&self, id: Id) -> (r: bool)
        ensures
            r == bookcase_ids(self.bookcases@).contains(id),
    {
        let mut i: usize = 0;
        while i < self.bookcases.len()
            invariant
                i <= self.bookcases.len(),
                forall|t: int| 0 <= t < i ==> self.bookcases@[t].id != id,
            decreases self.bookcases.len() - i,
        {
            if self.bookcases[i].id == id {
                assert(bookcase_ids(self.bookcases@)[i as int] == id);
                return true;
            }
            i = i + 1;
        }
        assert forall|t: int| 0 <= t < bookcase_ids(self.bookcases@).len() implies bookcase_ids(
            self.bookcases@,
        )[t] != id by {}
        false
    }

    /// Whether a user with identifier `id` is stored.
    pub fn check_has_user(&self, id: Id) -> (r: bool)
        ensures
            r == self.has_user(id),
    {
        let mut i: usize = 0;
        while i < self.users.len()
            invariant
                i <= self.users.len(),
                forall|t: int| 0 <= t < i ==> self.users@[t].id != id,
            decreases self.users.len() - i,
        {
            if self.users[i].id == id {
                assert(user_ids(self.users@)[i as int] == id);
                return true;
            }
            i = i + 1;
        }
        assert forall|t: int| 0 <= t < user_ids(self.users@).len() implies user_ids(self.users@)[t]
            != id by {}
        false
    }

    /// The bookcases of `user`, ordered by position (the listing of bookcases).
    pub fn list_bookcases(&self, user: Id) -> (r: Vec<Bookcase>)
        ensures
            r@ == self.bookcase_listing(user),
    {
        let owned = self.collect_user_bookcases(user);
        let keys = bookcase_position_list(&owned);
        arrange(&owned, &keys)
    }

    /// Adds a bookcase named `name` for `user` after their last bookcase.
    /// It fails, changing nothing, when the user is unknown, the identifier is
    /// taken or the next position does not fit.
    pub fn create_bookcase(&mut self, user: Id, name: String, id: Id, created_at: i64) -> (r: Result<
        Bookcase,
        AppError,
    >)
        ensures
            r is Ok <==> (old(self).has_user(user) && !bookcase_ids(old(self).bookcases@).contains(id)
                && next_position(bookcase_positions(old(self).user_bookcases(user))) <= i32::MAX),
            match r {
                Ok(b) => {
                    &&& b == (Bookcase {
                        id: id,
                        user_id: user,
                        name: name,
                        position: next_position(bookcase_positions(old(self).user_bookcases(user))) as i32,
                        created_at: created_at,
                    })
                    &&& final(self).bookcases@ == old(self).bookcases@.push(b)
                    &&& only_bookcases_differ(*old(self), *final(self))
                    &&& old(self).wf() ==> final(self).wf()
                },
                Err(e) => {
                    &&& e.status == INTERNAL_SERVER_ERROR
                    &&& same_contents(*old(self), *final(self))
                },
            },
    {
        if !self.check_has_user(user) {
            return Err(AppError::internal("the user does not exist".to_owned()));
        }
        if self.has_bookcase_id(id) {
            return Err(AppError::internal("the bookcase identifier is taken".to_owned()));
        }
        let owned = self.collect_user_bookcases(user);
        let keys = bookcase_position_list(&owned);
        match crate::arrange::compute_next_position(&keys) {
            None => Err(AppError::internal("integer out of range".to_owned())),
            Some(p) => {
                let b = Bookcase { id, user_id: user, name, position: p, created_at };
                self.bookcases.push(b.duplicate());
                assert(bookcase_ids(self.bookcases@) =~= bookcase_ids(old(self).bookcases@).push(id));
                Ok(b)
            },
        }
    }

    /// Renames the bookcase `id` of `user`. Without such a bookcase the request
    /// fails with a server error ("Bookcase not found") and changes nothing.
    pub fn update_bookcase(&mut self, user: Id, id: Id, name: String) -> (r: Result<
        Bookcase,
        AppError,
    >)
        ensures
            r is Ok <==> old(self).owns_bookcase(user, id),
            match r {
                Ok(b) => {
                    &&& final(self).bookcases@ == old(self).renamed_bookcases(user, id, name)
                    &&& only_bookcases_differ(*old(self), *final(self))
                    &&& bookcase_ids(final(self).bookcases@) == bookcase_ids(old(self).bookcases@)
                    &&& old(self).wf() ==> final(self).wf()
                    &&& exists|i: int|
                        0 <= i < old(self).bookcases@.len() && old(self).bookcases@[i].id == id
                            && old(self).bookcases@[i].user_id == user && (forall|j: int|
                            0 <= j < i ==> !(old(self).bookcases@[j].id == id
                                && old(self).bookcases@[j].user_id == user)) && b == bookcase_named(
                            old(self).bookcases@[i],
                            name,
                        )
                },
                Err(e) => {
                    &&& e.status == INTERNAL_SERVER_ERROR
                    &&& e.message@ == "Bookcase not found"@
                    &&& same_contents(*old(self), *final(self))
                },
            },
            r matches Ok(b) ==> {
                &&& b.id == id
                &&& b.user_id == user
                &&& b.name == name
                &&& final(self).bookcases@.contains(b)
            },
    {
        let ghost before = self.bookcases@;
        let mut first: Option<Bookcase> = None;
        let ghost mut first_at: int = -1;
        let mut i: usize = 0;
        while i < self.bookcases.len()
            invariant
                i <= self.bookcases.len(),
                self.bookcases@.len() == before.len(),
                forall|t: int| 0 <= t < i ==> self.bookcases@[t] == old(self).renamed_bookcases(user, id, name)[t],
                forall|t: int| i <= t < before.len() ==> self.bookcases@[t] == before[t],
                before == old(self).bookcases@,
                self.users@ == old(self).users@,
                self.accounts@ == old(self).accounts@,
                self.shelves@ == old(self).shelves@,
                self.books@ == old(self).books@,
                match first {
                    None => forall|t: int| 0 <= t < i ==> !(before[t].id == id && before[t].user_id == user),
                    Some(b) => {
                        &&& 0 <= first_at < i
                        &&& before[first_at].id == id && before[first_at].user_id == user
                        &&& forall|j: int| 0 <= j < first_at ==> !(before[j].id == id && before[j].user_id == user)
                        &&& b == bookcase_named(before[first_at], name)
                    },
                },
            decreases before.len() - i,
        {
            if self.bookcases[i].id == id && self.bookcases[i].user_id == user {
                let old_row = self.bookcases[i].duplicate();
                let row = Bookcase {
                    id: old_row.id,
                    user_id: old_row.user_id,
                    name: name.clone(),
                    position: old_row.position,
                    created_at: old_row.created_at,
                };
                if first.is_none() {
                    first = Some(row.duplicate());
                    proof {
                        first_at = i as int;
                    }
                }
                self.bookcases.set(i, row);
            }
            i = i + 1;
        }
        assert(self.bookcases@ =~= old(self).renamed_bookcases(user, id, name));
        assert(bookcase_ids(self.bookcases@) =~= bookcase_ids(old(self).bookcases@));
        match first {
            Some(b) => {
                assert(0 <= first_at < before.len() && before[first_at].id == id && before[first_at].user_id
                    == user && (forall|j: int|
                    0 <= j < first_at ==> !(before[j].id == id && before[j].user_id == user)) && b
                    == bookcase_named(before[first_at], name));
                assert(self.bookcases@[first_at] == b);
                assert(self.bookcases@.contains(b));
                Ok(b)
            },
            None => {
                assert(self.bookcases@ =~= before);
                Err(AppError::internal("Bookcase not found".to_owned()))
            },
        }
    }

    /// Puts the bookcases of `user` in the order `ids`: refused (400) unless `ids`
    /// names each of their bookcases exactly once; otherwise the bookcase named at
    /// place `k` gets position `k`.
    pub fn reorder_bookcases(&mut self, user: Id, ids: &Vec<Id>) -> (r: Result<(), AppError>)
        ensures
            r is Ok <==> same_members(ids@, bookcase_ids(old(self).user_bookcases(user))),
            match r {
                Ok(_) => {
                    &&& final(self).bookcases@ == old(self).reordered_bookcases(user, ids@)
                    &&& only_bookcases_differ(*old(self), *final(self))
                    &&& bookcase_ids(final(self).bookcases@) == bookcase_ids(old(self).bookcases@)
                    &&& old(self).wf() ==> final(self).wf()
                },
                Err(e) => {
                    &&& e.status == BAD_REQUEST
                    &&& e.message@ == "Provided IDs do not match the user's bookcases exactly"@
                    &&& same_contents(*old(self), *final(self))
                },
            },
    {
        let owned = self.collect_user_bookcases(user);
        let existing = bookcase_id_list(&owned);
        if !same_ids(ids, &existing) {
            return Err(
                AppError::bad_request("Provided IDs do not match the user's bookcases exactly".to_owned()),
            );
        }
        let ghost before = self.bookcases@;
        let mut i: usize = 0;
        while i < self.bookcases.len()
            invariant
                i <= self.bookcases.len(),
                self.bookcases@.len() == before.len(),
                before == old(self).bookcases@,
                forall|t: int| 0 <= t < i ==> self.bookcases@[t] == old(self).reordered_bookcases(user, ids@)[t],
                forall|t: int| i <= t < before.len() ==> self.bookcases@[t] == before[t],
                self.users@ == old(self).users@,
                self.accounts@ == old(self).accounts@,
                self.shelves@ == old(self).shelves@,
                self.books@ == old(self).books@,
            decreases before.len() - i,
        {
            if self.bookcases[i].user_id == user {
                match find_last(ids, self.bookcases[i].id) {
                    Some(k) => {
                        proof {
                            lemma_last_index_of(ids@, before[i as int].id);
                        }
                        let old_row = self.bookcases[i].duplicate();
                        let row = Bookcase {
                            id: old_row.id,
                            user_id: old_row.user_id,
                            name: old_row.name,
                            position: k as i32,
                            created_at: old_row.created_at,
                        };
                        self.bookcases.set(i, row);
                    },
                    None => {
                        proof {
                            lemma_last_index_of(ids@, before[i as int].id);
                        }
                    },
                }
            } else {
            }
            i = i + 1;
        }
        assert(self.bookcases@ =~= old(self).reordered_bookcases(user, ids@));
        assert(bookcase_ids(self.bookcases@) =~= bookcase_ids(old(self).bookcases@));
        Ok(())
    }
}

/// After an accepted reordering, the listing of the user's bookcases is the
/// order that was asked for.
pub proof fn lemma_reorder_then_list(before: Catalog, after: Catalog, user: Id, ids: Seq<Id>)
    requires
        before.wf(),
        ids.len() <= i32::MAX + 1,
        same_members(ids, bookcase_ids(before.user_bookcases(user))),
        after.bookcases@ == before.reordered_bookcases(user, ids),
    ensures
        bookcase_ids(after.bookcase_listing(user)) == ids,
{
    broadcast use {vstd::seq_lib::group_to_multiset_ensures, vstd::multiset::group_multiset_axioms};

    let b = before.bookcases@;
    let p = of_owner(user);
    let f = repositioned(user, ids);
    let o = before.user_bookcases(user);
    let o2 = after.user_bookcases(user);
    lemma_filter_map_commute(b, p, f);
    assert(o2 == o.map_values(f));
    lemma_filter_member(b, p);
    let key = |x: Bookcase| x.id;
    assert forall|i: int, j: int| 0 <= i < b.len() && 0 <= j < b.len() && i != j implies key(b[i]) != key(
        b[j],
    ) by {
        assert(bookcase_ids(b)[i] == b[i].id && bookcase_ids(b)[j] == b[j].id);
    }
    lemma_filter_distinct(b, p, key);
    let oid = bookcase_ids(o);
    assert(ids.len() == o.len()) by {
        assert(ids.to_multiset().len() == oid.to_multiset().len());
    }
    assert forall|t: int| 0 <= t < o.len() implies ids.contains(#[trigger] o[t].id) by {
        assert(oid[t] == o[t].id);
        assert(oid.contains(o[t].id));
        assert(oid.to_multiset().count(o[t].id) > 0);
    }
    let keys = bookcase_positions(o2);
    assert forall|t: int| 0 <= t < o.len() implies {
        &&& o[t].user_id == user
        &&& 0 <= last_index_of(ids, o[t].id) < ids.len()
        &&& ids[last_index_of(ids, o[t].id)] == o[t].id
        &&& #[trigger] keys[t] == last_index_of(ids, o[t].id)
    } by {
        assert(o.contains(o[t]));
        lemma_last_index_of(ids, o[t].id);
        assert(o2[t] == f(o[t]));
    }
    assert forall|i: int| 0 <= i < keys.len() implies 0 <= #[trigger] keys[i] < keys.len() by {}
    assert forall|i: int, j: int| 0 <= i < keys.len() && 0 <= j < keys.len() && i != j implies keys[i]
        != keys[j] by {
        assert(keys[i] == last_index_of(ids, o[i].id));
        assert(keys[j] == last_index_of(ids, o[j].id));
        assert(key(o[i]) != key(o[j]));
    }
    lemma_ordering_of_permutation(keys);
    lemma_ordering_props(keys, keys.len());
    let ord = ordering(keys, keys.len());
    let l = after.bookcase_listing(user);
    assert(l.len() == ids.len());
    assert forall|k: int| 0 <= k < ids.len() implies bookcase_ids(l)[k] == ids[k] by {
        assert(ord.contains(ord[k]));
        let t = ord[k] as int;
        assert(keys[t] == k);
        assert(l[k] == o2[t]);
        assert(o2[t] == f(o[t]));
        assert(keys[t] == last_index_of(ids, o[t].id));
    }
    assert(bookcase_ids(l) =~= ids);
}

/// A bookcase that was just created comes last in the listing of its user,
/// after the bookcases that were there before, in their order.
pub proof fn lemma_create_then_list(before: Catalog, after: Catalog, user: Id, b: Bookcase)
    requires
        after.bookcases@ == before.bookcases@.push(b),
        b.user_id == user,
        b.position == next_position(bookcase_positions(before.user_bookcases(user))),
    ensures
        after.bookcase_listing(user) == before.bookcase_listing(user).push(b),
{
    let p = of_owner(user);
    let o = before.user_bookcases(user);
    let o2 = after.user_bookcases(user);
    before.bookcases@.lemma_filter_push(b, p);
    assert(o2 == o.push(b));
    let keys = bookcase_positions(o);
    let keys2 = bookcase_positions(o2);
    assert(keys2 =~= keys.push(b.position));
    let n = o.len();
    crate::arrange::lemma_next_position(keys);
    assert(n < usize::MAX) by {
        crate::seqs::lemma_filter_len(before.bookcases@, p);
        assert(after.bookcases@.len() == after.bookcases.len());
    }
    crate::order::lemma_ordering_push_max(keys2, n);
    crate::order::lemma_ordering_same_prefix(keys2, keys, n);
    lemma_ordering_props(keys, n);
    let ord = ordering(keys, n);
    assert(ordering(keys2, keys2.len()) == ord.push(n as usize));
    assert forall|k: int| 0 <= k < ord.len() implies ord[k] < n by {
        assert(ord.contains(ord[k]));
    }
    assert(after.bookcase_listing(user) =~= before.bookcase_listing(user).push(b));
}

/// Renaming a bookcase keeps the listing in its order, with the new name.
pub proof fn lemma_rename_then_list(before: Catalog, after: Catalog, user: Id, id: Id, name: String)
    requires
        after.bookcases@ == before.renamed_bookcases(user, id, name),
    ensures
        after.bookcase_listing(user) == before.bookcase_listing(user).map_values(renamed_to(user, id, name)),
{
    let f = renamed_to(user, id, name);
    let o = before.user_bookcases(user);
    lemma_filter_map_commute(before.bookcases@, of_owner(user), f);
    assert(after.user_bookcases(user) == o.map_values(f));
    let keys = bookcase_positions(o);
    assert(bookcase_positions(o.map_values(f)) =~= keys);
    assert(o.len() <= usize::MAX) by {
        crate::seqs::lemma_filter_len(before.bookcases@, of_owner(user));
        assert(before.bookcases@.len() == before.bookcases.len());
    }
    lemma_ordering_props(keys, keys.len());
    let ord = ordering(keys, keys.len());
    assert forall|k: int| 0 <= k < ord.len() implies ord[k] < o.len() by {
        assert(ord.contains(ord[k]));
    }
    assert(after.bookcase_listing(user) =~= before.bookcase_listing(user).map_values(f));
}

/// Whatever `user` asks to reorder, the bookcases of another user keep their
/// listing.
pub proof fn lemma_reorder_leaves_others(before: Catalog, after: Catalog, user: Id, other: Id, ids: Seq<Id>)
    requires
        user != other,
        after.bookcases@ == before.reordered_bookcases(user, ids),
    ensures
        after.bookcase_listing(other) == before.bookcase_listing(other),
{
    let f = repositioned(user, ids);
    let o = before.user_bookcases(other);
    lemma_filter_map_commute(before.bookcases@, of_owner(other), f);
    lemma_filter_member(before.bookcases@, of_owner(other));
    assert(o.map_values(f) =~= o);
}

/// Deleting a bookcase of one user keeps the listing of every other user.
pub proof fn lemma_delete_leaves_others(before: Catalog, after: Catalog, user: Id, other: Id, id: Id)
    requires
        user != other,
        after.bookcases@ == before.bookcases@.filter(crate::catalog::removal::bookcase_kept(user, id)),
    ensures
        after.bookcase_listing(other) == before.bookcase_listing(other),
{
    let keep = crate::catalog::removal::bookcase_kept(user, id);
    let mine = of_owner(other);
    assert(after.user_bookcases(other) == before.user_bookcases(other)) by {
        lemma_filter_twice(before.bookcases@, keep, mine);
    }
}

/// Filtering by `q` after `p` is filtering by `q` alone when every row that `q`
/// keeps passes `p`.
proof fn lemma_filter_twice(s: Seq<Bookcase>, p: spec_fn(Bookcase) -> bool, q: spec_fn(Bookcase) -> bool)
    requires
        forall|x: Bookcase| #[trigger] q(x) ==> p(x),
    ensures
        s.filter(p).filter(q) == s.filter(q),
    decreases s.len(),
{
    reveal(Seq::filter);
    if s.len() > 0 {
        lemma_filter_twice(s.drop_last(), p, q);
        let x = s.last();
        if p(x) {
            s.drop_last().filter(p).lemma_filter_push(x, q);
        }
    }
}

/// The positions of the rows, in order.
pub fn bookcase_position_list(rows: &Vec<Bookcase>) -> (p: Vec<i32>)
    ensures
        p@ == bookcase_positions(rows@),
{
    let mut p: Vec<i32> = Vec::new();
    let mut i: usize = 0;
    while i < rows.len()
        invariant
            i <= rows.len(),
            p@ =~= bookcase_positions(rows@.take(i as int)),
        decreases rows.len() - i,
    {
        p.push(rows[i].position);
        i = i + 1;
    }
    assert(rows@.take(rows.len() as int) == rows@);
    p
}

/// The identifiers of the rows, in order.
pub fn bookcase_id_list(rows: &Vec<Bookcase>) -> (p: Vec<Id>)
    ensures
        p@ == bookcase_ids(rows@),
{
    let mut p: Vec<Id> = Vec::new();
    let mut i: usize = 0;
    while i < rows.len()
        invariant
            i <= rows.len(),
            p@ =~= bookcase_ids(rows@.take(i as int)),
        decreases rows.len() - i,
    {
        p.push(rows[i].id);
        i = i + 1;
    }
    assert(rows@.take(rows.len() as int) == rows@);
    p
}

} // verus!

verus! {

/// Renaming a bookcase: the user's rows with that identifier take the new name
/// and keep their owner, position and creation time; every other row is
/// unchanged.
pub proof fn lemma_renamed_rows(before: Catalog, after: Catalog, user: Id, id: Id, name: String)
    requires
        after.bookcases@ == before.renamed_bookcases(user, id, name),
    ensures
        after.bookcases@.len() == before.bookcases@.len(),
        forall|i: int|
            0 <= i < before.bookcases@.len() ==> if before.bookcases@[i].id == id && before.bookcases@[i].user_id
                == user {
                &&& (#[trigger] after.bookcases@[i]).name == name
                &&& after.bookcases@[i].id == id
                &&& after.bookcases@[i].user_id == user
                &&& after.bookcases@[i].position == before.bookcases@[i].position
                &&& after.bookcases@[i].created_at == before.bookcases@[i].created_at
            } else {
                after.bookcases@[i] == before.bookcases@[i]
            },
{
}

} // verus!
