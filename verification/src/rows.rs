use vstd::prelude::*;

use crate::ids::Id;

verus! {

/// A stored value that can be copied exactly.
pub trait Row: Sized {
    fn duplicate(&self) -> (r: Self)
        ensures
            r == *self;
}

/// An exact copy of an optional text.
pub fn copy_text(o: &Option<String>) -> (r: Option<String>)
    ensures
        r == *o,
{
    match o {
        Some(s) => Some(s.clone()),
        None => None,
    }
}

/// The text of an optional string slice, as characters.
pub open spec fn str_text_of(o: Option<&str>) -> Option<Seq<char>> {
    match o {
        Some(s) => Some(s@),
        None => None,
    }
}

/// An owned copy of an optional string slice.
pub fn own_text(o: Option<&str>) -> (r: Option<String>)
    ensures
        text_of(r) == str_text_of(o),
{
    match o {
        Some(s) => Some(s.to_owned()),
        None => None,
    }
}

/// The text of an optional string, as characters.
pub open spec fn text_of(o: Option<String>) -> Option<Seq<char>> {
    match o {
        Some(s) => Some(s@),
        None => None,
    }
}

/// A person who signs in with one or more accounts of an identity provider.
pub struct User {
    pub id: Id,
    pub username: String,
    pub email: String,
    pub avatar_url: Option<String>,
}

/// The link between a user and their account at an identity provider.
pub struct OauthAccount {
    pub user_id: Id,
    pub provider: String,
    pub provider_user_id: String,
    pub provider_email: String,
}

/// A bookcase of a user.
pub struct Bookcase {
    pub id: Id,
    pub user_id: Id,
    pub name: String,
    pub position: i32,
    pub created_at: i64,
}

/// A shelf of a bookcase.
pub struct Shelf {
    pub id: Id,
    pub bookcase_id: Id,
    pub name: String,
    pub position: i32,
    pub created_at: i64,
}

/// A book on a shelf.
pub struct Book {
    pub id: Id,
    pub shelf_id: Id,
    pub title: String,
    pub author: String,
    pub color: String,
    pub position: i32,
    pub open_library_url: Option<String>,
    pub cover_url: Option<String>,
    pub created_at: i64,
}

impl Row for User {
    fn duplicate(&self) -> (r: Self) {
        User {
            id: self.id,
            username: self.username.clone(),
            email: self.email.clone(),
            avatar_url: copy_text(&self.avatar_url),
        }
    }
}

impl Row for OauthAccount {
    fn duplicate(&self) -> (r: Self) {
        OauthAccount {
            user_id: self.user_id,
            provider: self.provider.clone(),
            provider_user_id: self.provider_user_id.clone(),
            provider_email: self.provider_email.clone(),
        }
    }
}

impl Row for Bookcase {
    fn duplicate(&self) -> (r: Self) {
        Bookcase {
            id: self.id,
            user_id: self.user_id,
            name: self.name.clone(),
            position: self.position,
            created_at: self.created_at,
        }
    }
}

impl Row for Shelf {
    fn duplicate(&self) -> (r: Self) {
        Shelf {
            id: self.id,
            bookcase_id: self.bookcase_id,
            name: self.name.clone(),
            position: self.position,
            created_at: self.created_at,
        }
    }
}

impl Row for Book {
    fn duplicate(&self) -> (r: Self) {
        Book {
            id: self.id,
            shelf_id: self.shelf_id,
            title: self.title.clone(),
            author: self.author.clone(),
            color: self.color.clone(),
            position: self.position,
            open_library_url: copy_text(&self.open_library_url),
            cover_url: copy_text(&self.cover_url),
            created_at: self.created_at,
        }
    }
}

pub open spec fn user_ids(s: Seq<User>) -> Seq<Id> {
    Seq::new(s.len(), |i: int| s[i].id)
}

pub open spec fn user_emails(s: Seq<User>) -> Seq<Seq<char>> {
    Seq::new(s.len(), |i: int| s[i].email@)
}

/// The provider and the provider's identifier of each account, in order.
pub open spec fn account_keys(s: Seq<OauthAccount>) -> Seq<(Seq<char>, Seq<char>)> {
    Seq::new(s.len(), |i: int| (s[i].provider@, s[i].provider_user_id@))
}

pub open spec fn bookcase_ids(s: Seq<Bookcase>) -> Seq<Id> {
    Seq::new(s.len(), |i: int| s[i].id)
}

pub open spec fn shelf_ids(s: Seq<Shelf>) -> Seq<Id> {
    Seq::new(s.len(), |i: int| s[i].id)
}

pub open spec fn book_ids(s: Seq<Book>) -> Seq<Id> {
    Seq::new(s.len(), |i: int| s[i].id)
}

pub open spec fn bookcase_positions(s: Seq<Bookcase>) -> Seq<i32> {
    Seq::new(s.len(), |i: int| s[i].position)
}

pub open spec fn shelf_positions(s: Seq<Shelf>) -> Seq<i32> {
    Seq::new(s.len(), |i: int| s[i].position)
}

pub open spec fn book_positions(s: Seq<Book>) -> Seq<i32> {
    Seq::new(s.len(), |i: int| s[i].position)
}

} // verus!
