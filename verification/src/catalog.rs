use vstd::prelude::*;

use crate::ids::Id;
use crate::rows::{
    account_keys, book_ids, bookcase_ids, shelf_ids, user_emails, user_ids, Book, Bookcase, OauthAccount, Shelf, User,
};

pub mod bookcases;
pub mod shelves;
pub mod books;
pub mod removal;
pub mod detail;
pub mod rearrange;
pub mod users;

verus! {

/// Everything the service stores: users, their sign-in accounts, and their
/// bookcases, shelves and books. Each table keeps the order in which its rows
/// were added.
pub struct Catalog {
    pub users: Vec<User>,
    pub accounts: Vec<OauthAccount>,
    pub bookcases: Vec<Bookcase>,
    pub shelves: Vec<Shelf>,
    pub books: Vec<Book>,
}

/// Only the bookcases of `a` and `b` may differ.
pub open spec fn only_bookcases_differ(a: Catalog, b: Catalog) -> bool {
    &&& a.users@ == b.users@
    &&& a.accounts@ == b.accounts@
    &&& a.shelves@ == b.shelves@
    &&& a.books@ == b.books@
}

/// Only the shelves of `a` and `b` may differ.
pub open spec fn only_shelves_differ(a: Catalog, b: Catalog) -> bool {
    &&& a.users@ == b.users@
    &&& a.accounts@ == b.accounts@
    &&& a.bookcases@ == b.bookcases@
    &&& a.books@ == b.books@
}

/// Only the books of `a` and `b` may differ.
pub open spec fn only_books_differ(a: Catalog, b: Catalog) -> bool {
    &&& a.users@ == b.users@
    &&& a.accounts@ == b.accounts@
    &&& a.bookcases@ == b.bookcases@
    &&& a.shelves@ == b.shelves@
}

/// `a` and `b` store the same rows.
pub open spec fn same_contents(a: Catalog, b: Catalog) -> bool {
    &&& a.users@ == b.users@
    &&& a.accounts@ == b.accounts@
    &&& a.bookcases@ == b.bookcases@
    &&& a.shelves@ == b.shelves@
    &&& a.books@ == b.books@
}

impl Catalog {
    /// Every user, bookcase, shelf and book has an identifier of its own, no two
    /// users share an e-mail address, and no two accounts share a provider and
    /// the provider's identifier.
    pub open spec fn wf(&self) -> bool {
        &&& user_ids(self.users@).no_duplicates()
        &&& user_emails(self.users@).no_duplicates()
        &&& account_keys(self.accounts@).no_duplicates()
        &&& bookcase_ids(self.bookcases@).no_duplicates()
        &&& shelf_ids(self.shelves@).no_duplicates()
        &&& book_ids(self.books@).no_duplicates()
    }

    /// A user with this identifier is stored.
    pub open spec fn has_user(&self, id: Id) -> bool {
        user_ids(self.users@).contains(id)
    }

    /// An empty catalog.
    pub fn new() -> (c: Catalog)
        ensures
            c.users@ == Seq::<User>::empty(),
            c.accounts@ == Seq::<OauthAccount>::empty(),
            c.bookcases@ == Seq::<Bookcase>::empty(),
            c.shelves@ == Seq::<Shelf>::empty(),
            c.books@ == Seq::<Book>::empty(),
            c.wf(),
    {
        let c = Catalog {
            users: Vec::new(),
            accounts: Vec::new(),
            bookcases: Vec::new(),
            shelves: Vec::new(),
            books: Vec::new(),
        };
        assert(user_ids(c.users@) =~= Seq::<Id>::empty());
        assert(user_emails(c.users@) =~= Seq::<Seq<char>>::empty());
        assert(account_keys(c.accounts@) =~= Seq::<(Seq<char>, Seq<char>)>::empty());
        assert(bookcase_ids(c.bookcases@) =~= Seq::<Id>::empty());
        assert(shelf_ids(c.shelves@) =~= Seq::<Id>::empty());
        assert(book_ids(c.books@) =~= Seq::<Id>::empty());
        c
    }
}

} // verus!

verus! {

/// A filter keeps the identifiers of bookcases distinct.
pub proof fn lemma_filter_bookcases_wf(s: Seq<Bookcase>, p: spec_fn(Bookcase) -> bool)
    requires
        bookcase_ids(s).no_duplicates(),
    ensures
        bookcase_ids(s.filter(p)).no_duplicates(),
{
    let key = |x: Bookcase| x.id;
    assert forall|i: int, j: int| 0 <= i < s.len() && 0 <= j < s.len() && i != j implies key(s[i]) != key(s[j]) by {
        assert(bookcase_ids(s)[i] == s[i].id && bookcase_ids(s)[j] == s[j].id);
    }
    crate::seqs::lemma_filter_distinct(s, p, key);
    let f = s.filter(p);
    assert forall|i: int, j: int| 0 <= i < f.len() && 0 <= j < f.len() && i != j implies bookcase_ids(f)[i]
        != bookcase_ids(f)[j] by {
        assert(key(f[i]) != key(f[j]));
    }
}

/// A filter keeps the identifiers of shelves distinct.
pub proof fn lemma_filter_shelves_wf(s: Seq<Shelf>, p: spec_fn(Shelf) -> bool)
    requires
        shelf_ids(s).no_duplicates(),
    ensures
        shelf_ids(s.filter(p)).no_duplicates(),
{
    let key = |x: Shelf| x.id;
    assert forall|i: int, j: int| 0 <= i < s.len() && 0 <= j < s.len() && i != j implies key(s[i]) != key(s[j]) by {
        assert(shelf_ids(s)[i] == s[i].id && shelf_ids(s)[j] == s[j].id);
    }
    crate::seqs::lemma_filter_distinct(s, p, key);
    let f = s.filter(p);
    assert forall|i: int, j: int| 0 <= i < f.len() && 0 <= j < f.len() && i != j implies shelf_ids(f)[i]
        != shelf_ids(f)[j] by {
        assert(key(f[i]) != key(f[j]));
    }
}

/// A filter keeps the identifiers of books distinct.
pub proof fn lemma_filter_books_wf(s: Seq<Book>, p: spec_fn(Book) -> bool)
    requires
        book_ids(s).no_duplicates(),
    ensures
        book_ids(s.filter(p)).no_duplicates(),
{
    let key = |x: Book| x.id;
    assert forall|i: int, j: int| 0 <= i < s.len() && 0 <= j < s.len() && i != j implies key(s[i]) != key(s[j]) by {
        assert(book_ids(s)[i] == s[i].id && book_ids(s)[j] == s[j].id);
    }
    crate::seqs::lemma_filter_distinct(s, p, key);
    let f = s.filter(p);
    assert forall|i: int, j: int| 0 <= i < f.len() && 0 <= j < f.len() && i != j implies book_ids(f)[i]
        != book_ids(f)[j] by {
        assert(key(f[i]) != key(f[j]));
    }
}

} // verus!
