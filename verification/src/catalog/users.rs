use vstd::prelude::*;

use crate::auth::{make_unique_username, unique_username, UserInfo};
use crate::catalog::{same_contents, Catalog};
use crate::error::{AppError, INTERNAL_SERVER_ERROR};
use crate::ids::Id;
use crate::rows::{
    account_keys, bookcase_ids, copy_text, own_text, str_text_of, text_of, user_emails, user_ids, Bookcase,
    OauthAccount, User,
};

verus! {

/// The place of the first account of `provider` with the provider's identifier
/// `pid`, or -1.
pub open spec fn account_index(s: Seq<OauthAccount>, provider: Seq<char>, pid: Seq<char>) -> int
    decreases s.len(),
{
    if s.len() == 0 {
        -1
    } else {
        let i = account_index(s.drop_last(), provider, pid);
        if i >= 0 {
            i
        } else if s.last().provider@ == provider && s.last().provider_user_id@ == pid {
            s.len() - 1
        } else {
            -1
        }
    }
}

/// The place of the first user with the address `email`, or -1.
pub open spec fn email_index(s: Seq<User>, email: Seq<char>) -> int
    decreases s.len(),
{
    if s.len() == 0 {
        -1
    } else {
        let i = email_index(s.drop_last(), email);
        if i >= 0 {
            i
        } else if s.last().email@ == email {
            s.len() - 1
        } else {
            -1
        }
    }
}

/// `after` holds the users of `before`, where those that `hit` selects carry
/// the avatar `avatar`.
pub open spec fn avatars_set(before: Seq<User>, after: Seq<User>, hit: spec_fn(User) -> bool, avatar: Option<
    Seq<char>,
>) -> bool {
    &&& after.len() == before.len()
    &&& forall|i: int|
        0 <= i < before.len() ==> {
            &&& (#[trigger] after[i]).id == before[i].id
            &&& after[i].username == before[i].username
            &&& after[i].email == before[i].email
            &&& if hit(before[i]) {
                text_of(after[i].avatar_url) == avatar
            } else {
                after[i].avatar_url == before[i].avatar_url
            }
        }
}

/// The users with identifier `id`.
pub open spec fn with_id(id: Id) -> spec_fn(User) -> bool {
    |u: User| u.id == id
}

/// The users with the address `email`.
pub open spec fn with_email(email: Seq<char>) -> spec_fn(User) -> bool {
    |u: User| u.email@ == email
}

/// The user whose account at `provider` has the identifier `pid`, if one signed in.
pub open spec fn account_user(c: Catalog, provider: Seq<char>, pid: Seq<char>) -> Option<Id> {
    let a = account_index(c.accounts@, provider, pid);
    if a >= 0 {
        Some(c.accounts@[a].user_id)
    } else {
        None
    }
}

/// The outcome `r` and state `after` of signing in from state `before`: a known
/// account keeps its user and only that user's avatar changes; otherwise the user
/// with the same address is taken (its avatar updated), or a new user is made
/// with a fresh user name, and the account and a bookcase "My Bookcase" at
/// position 0 are added for them. A taken identifier fails, changing nothing.
pub open spec fn signed_in(
    before: Catalog,
    after: Catalog,
    r: Result<Id, AppError>,
    provider: Seq<char>,
    pid: Seq<char>,
    email: Seq<char>,
    username: Seq<char>,
    avatar: Option<Seq<char>>,
    suffix: Id,
    new_user_id: Id,
    new_bookcase_id: Id,
    created_at: i64,
) -> bool {
    let a = account_index(before.accounts@, provider, pid);
    if a >= 0 {
        let uid = before.accounts@[a].user_id;
        &&& r == Ok::<Id, AppError>(uid)
        &&& avatars_set(before.users@, after.users@, with_id(uid), avatar)
        &&& after.accounts@ == before.accounts@
        &&& after.bookcases@ == before.bookcases@
        &&& after.shelves@ == before.shelves@
        &&& after.books@ == before.books@
    } else {
        let e = email_index(before.users@, email);
        let uid = if e >= 0 {
            before.users@[e].id
        } else {
            new_user_id
        };
        if (e >= 0 || !user_ids(before.users@).contains(new_user_id)) && !bookcase_ids(
            before.bookcases@,
        ).contains(new_bookcase_id) {
            &&& r == Ok::<Id, AppError>(uid)
            &&& if e >= 0 {
                avatars_set(before.users@, after.users@, with_email(email), avatar)
            } else {
                &&& after.users@.len() == before.users@.len() + 1
                &&& after.users@.drop_last() == before.users@
                &&& after.users@.last().id == new_user_id
                &&& after.users@.last().username@ == unique_username(username, suffix)
                &&& after.users@.last().email@ == email
                &&& text_of(after.users@.last().avatar_url) == avatar
            }
            &&& after.accounts@.len() == before.accounts@.len() + 1
            &&& after.accounts@.drop_last() == before.accounts@
            &&& after.accounts@.last().user_id == uid
            &&& after.accounts@.last().provider@ == provider
            &&& after.accounts@.last().provider_user_id@ == pid
            &&& after.accounts@.last().provider_email@ == email
            &&& after.bookcases@.len() == before.bookcases@.len() + 1
            &&& after.bookcases@.drop_last() == before.bookcases@
            &&& after.bookcases@.last().id == new_bookcase_id
            &&& after.bookcases@.last().user_id == uid
            &&& after.bookcases@.last().name@ == "My Bookcase"@
            &&& after.bookcases@.last().position == 0
            &&& after.bookcases@.last().created_at == created_at
            &&& after.shelves@ == before.shelves@
            &&& after.books@ == before.books@
        } else {
            &&& r matches Err(err) && err.status == INTERNAL_SERVER_ERROR
            &&& same_contents(before, after)
        }
    }
}

/// The first account is an account of `provider` with identifier `pid`, and no
/// earlier one is.
pub proof fn lemma_account_index(s: Seq<OauthAccount>, provider: Seq<char>, pid: Seq<char>)
    ensures
        -1 <= account_index(s, provider, pid) < s.len(),
        account_index(s, provider, pid) >= 0 ==> s[account_index(s, provider, pid)].provider@ == provider
            && s[account_index(s, provider, pid)].provider_user_id@ == pid,
        forall|j: int|
            0 <= j < s.len() && (account_index(s, provider, pid) < 0 || j < account_index(s, provider, pid))
                ==> !(#[trigger] s[j].provider@ == provider && s[j].provider_user_id@ == pid),
    decreases s.len(),
{
    if s.len() > 0 {
        lemma_account_index(s.drop_last(), provider, pid);
        assert forall|j: int|
            0 <= j < s.len() && (account_index(s, provider, pid) < 0 || j < account_index(s, provider, pid))
                implies !(#[trigger] s[j].provider@ == provider && s[j].provider_user_id@ == pid) by {
            if j < s.len() - 1 {
                assert(s[j] == s.drop_last()[j]);
            }
        }
    }
}

/// The first user with the address is one, and no earlier one is.
pub proof fn lemma_email_index(s: Seq<User>, email: Seq<char>)
    ensures
        -1 <= email_index(s, email) < s.len(),
        email_index(s, email) >= 0 ==> s[email_index(s, email)].email@ == email,
        forall|j: int|
            0 <= j < s.len() && (email_index(s, email) < 0 || j < email_index(s, email)) ==> (#[trigger] s[j]).email@
                != email,
    decreases s.len(),
{
    if s.len() > 0 {
        lemma_email_index(s.drop_last(), email);
        assert forall|j: int|
            0 <= j < s.len() && (email_index(s, email) < 0 || j < email_index(s, email)) implies (
            #[trigger] s[j]).email@ != email by {
            if j < s.len() - 1 {
                assert(s[j] == s.drop_last()[j]);
            }
        }
    }
}

impl Catalog {
    /// Where the first account of `provider` with identifier `pid` is stored.
    fn find_account(&self, provider: &str, pid: &str) -> (r: Option<usize>)
        ensures
            match r {
                Some(i) => i == account_index(self.accounts@, provider@, pid@),
                None => account_index(self.accounts@, provider@, pid@) == -1,
            },
    {
        let p = provider.to_owned();
        let q = pid.to_owned();
        let mut i: usize = 0;
        while i < self.accounts.len()
            invariant
                i <= self.accounts.len(),
                p@ == provider@,
                q@ == pid@,
                account_index(self.accounts@.take(i as int), provider@, pid@) == -1,
            decreases self.accounts.len() - i,
        {
            assert(self.accounts@.take(i + 1).drop_last() == self.accounts@.take(i as int));
            if self.accounts[i].provider == p && self.accounts[i].provider_user_id == q {
                proof {
                    lemma_account_prefix(self.accounts@, provider@, pid@, i as int + 1);
                }
                return Some(i);
            }
            i = i + 1;
        }
        assert(self.accounts@.take(self.accounts.len() as int) == self.accounts@);
        None
    }

    /// Where the first user with the address `email` is stored.
    fn find_email(&self, email: &str) -> (r: Option<usize>)
        ensures
            match r {
                Some(i) => i == email_index(self.users@, email@),
                None => email_index(self.users@, email@) == -1,
            },
    {
        let m = email.to_owned();
        let mut i: usize = 0;
        while i < self.users.len()
            invariant
                i <= self.users.len(),
                m@ == email@,
                email_index(self.users@.take(i as int), email@) == -1,
            decreases self.users.len() - i,
        {
            assert(self.users@.take(i + 1).drop_last() == self.users@.take(i as int));
            if self.users[i].email == m {
                proof {
                    lemma_email_prefix(self.users@, email@, i as int + 1);
                }
                return Some(i);
            }
            i = i + 1;
        }
        assert(self.users@.take(self.users.len() as int) == self.users@);
        None
    }

    /// Gives the users that `id` or `email` selects the avatar `avatar_url`.
    fn set_avatars(&mut self, by_id: bool, id: Id, email: &str, avatar_url: Option<&str>)
        ensures
            avatars_set(
                old(self).users@,
                final(self).users@,
                if by_id {
                    with_id(id)
                } else {
                    with_email(email@)
                },
                str_text_of(avatar_url),
            ),
            final(self).accounts@ == old(self).accounts@,
            final(self).bookcases@ == old(self).bookcases@,
            final(self).shelves@ == old(self).shelves@,
            final(self).books@ == old(self).books@,
            user_ids(final(self).users@) == user_ids(old(self).users@),
            user_emails(final(self).users@) == user_emails(old(self).users@),
    {
        let m = email.to_owned();
        let ghost hit = if by_id {
            with_id(id)
        } else {
            with_email(email@)
        };
        let mut i: usize = 0;
        while i < self.users.len()
            invariant
                i <= self.users.len(),
                m@ == email@,
                hit == (if by_id {
                    with_id(id)
                } else {
                    with_email(email@)
                }),
                self.users@.len() == old(self).users@.len(),
                forall|t: int| i <= t < self.users@.len() ==> self.users@[t] == old(self).users@[t],
                forall|t: int|
                    0 <= t < i ==> {
                        &&& (#[trigger] self.users@[t]).id == old(self).users@[t].id
                        &&& self.users@[t].username == old(self).users@[t].username
                        &&& self.users@[t].email == old(self).users@[t].email
                        &&& if hit(old(self).users@[t]) {
                            text_of(self.users@[t].avatar_url) == str_text_of(avatar_url)
                        } else {
                            self.users@[t].avatar_url == old(self).users@[t].avatar_url
                        }
                    },
                self.accounts@ == old(self).accounts@,
                self.bookcases@ == old(self).bookcases@,
                self.shelves@ == old(self).shelves@,
                self.books@ == old(self).books@,
            decreases self.users.len() - i,
        {
            let selected = if by_id {
                self.users[i].id == id
            } else {
                self.users[i].email == m
            };
            if selected {
                let row = User {
                    id: self.users[i].id,
                    username: self.users[i].username.clone(),
                    email: self.users[i].email.clone(),
                    avatar_url: own_text(avatar_url),
                };
                self.users.set(i, row);
            }
            i = i + 1;
        }
        assert(user_ids(self.users@) =~= user_ids(old(self).users@));
        assert(user_emails(self.users@) =~= user_emails(old(self).users@));
    }

    /// Adds a user. A taken identifier or address is a server error that changes
    /// nothing.
    pub fn add_user(&mut self, id: Id, username: String, email: String, avatar_url: Option<String>) -> (r:
        Result<User, AppError>)
        ensures
            r is Ok <==> (!user_ids(old(self).users@).contains(id) && !user_emails(old(self).users@).contains(
                email@,
            )),
            match r {
                Ok(u) => {
                    &&& u == (User { id: id, username: username, email: email, avatar_url: avatar_url })
                    &&& final(self).users@ == old(self).users@.push(u)
                    &&& final(self).accounts@ == old(self).accounts@
                    &&& final(self).bookcases@ == old(self).bookcases@
                    &&& final(self).shelves@ == old(self).shelves@
                    &&& final(self).books@ == old(self).books@
                    &&& old(self).wf() ==> final(self).wf()
                },
                Err(e) => {
                    &&& e.status == INTERNAL_SERVER_ERROR
                    &&& same_contents(*old(self), *final(self))
                },
            },
    {
        if self.check_has_user(id) {
            return Err(AppError::internal("the user identifier is taken".to_owned()));
        }
        match self.find_email(email.as_str()) {
            Some(i) => {
                proof {
                    lemma_email_index(self.users@, email@);
                    assert(user_emails(self.users@)[i as int] == email@);
                }
                return Err(AppError::internal("the e-mail address is taken".to_owned()));
            },
            None => {
                proof {
                    lemma_email_index(self.users@, email@);
                    assert forall|t: int| 0 <= t < user_emails(self.users@).len() implies user_emails(
                        self.users@,
                    )[t] != email@ by {
                        assert(self.users@[t].email@ != email@);
                    }
                }
            },
        }
        let u = User { id, username, email, avatar_url };
        let copy = User {
            id: u.id,
            username: u.username.clone(),
            email: u.email.clone(),
            avatar_url: copy_text(&u.avatar_url),
        };
        self.users.push(copy);
        assert(user_ids(self.users@) =~= user_ids(old(self).users@).push(id));
        assert(user_emails(self.users@) =~= user_emails(old(self).users@).push(u.email@));
        Ok(u)
    }

    /// The name, address and avatar of the signed-in user; a server error when the
    /// user is not stored.
    pub fn me(&self, user: Id) -> (r: Result<UserInfo, AppError>)
        ensures
            r is Ok <==> self.has_user(user),
            match r {
                Ok(info) => exists|i: int|
                    0 <= i < self.users@.len() && self.users@[i].id == user && (forall|j: int|
                        0 <= j < i ==> self.users@[j].id != user) && info.username == self.users@[i].username
                        && info.email == self.users@[i].email && info.avatar_url == self.users@[i].avatar_url,
                Err(e) => e.status == INTERNAL_SERVER_ERROR,
            },
    {
        let mut i: usize = 0;
        while i < self.users.len()
            invariant
                i <= self.users.len(),
                forall|t: int| 0 <= t < i ==> self.users@[t].id != user,
            decreases self.users.len() - i,
        {
            if self.users[i].id == user {
                assert(user_ids(self.users@)[i as int] == user);
                return Ok(
                    UserInfo {
                        username: self.users[i].username.clone(),
                        email: self.users[i].email.clone(),
                        avatar_url: copy_text(&self.users[i].avatar_url),
                    },
                );
            }
            i = i + 1;
        }
        assert forall|t: int| 0 <= t < user_ids(self.users@).len() implies user_ids(self.users@)[t] != user by {}
        Err(AppError::internal("no rows returned by a query that expected to return at least one row".to_owned()))
    }

    /// Signs a user in with the account `pid` of `provider`, with `suffix` as the
    /// random part of a new user name and the given identifiers for a new user and
    /// their first bookcase (see `signed_in`).
    pub fn upsert_user_with(
        &mut self,
        provider: &str,
        provider_user_id: &str,
        email: &str,
        username: &str,
        avatar_url: Option<&str>,
        suffix: Id,
        new_user_id: Id,
        new_bookcase_id: Id,
        created_at: i64,
    ) -> (r: Result<Id, AppError>)
        ensures
            signed_in(
                *old(self),
                *final(self),
                r,
                provider@,
                provider_user_id@,
                email@,
                username@,
                str_text_of(avatar_url),
                suffix,
                new_user_id,
                new_bookcase_id,
                created_at,
            ),
            old(self).wf() ==> final(self).wf(),
    {
        proof {
            lemma_account_index(self.accounts@, provider@, provider_user_id@);
            lemma_email_index(self.users@, email@);
        }
        match self.find_account(provider, provider_user_id) {
            Some(i) => {
                let uid = self.accounts[i].user_id;
                self.set_avatars(true, uid, email, avatar_url);
                return Ok(uid);
            },
            None => {},
        }
        let e = self.find_email(email);
        if e.is_none() && self.check_has_user(new_user_id) {
            return Err(AppError::internal("the user identifier is taken".to_owned()));
        }
        if self.has_bookcase_id(new_bookcase_id) {
            return Err(AppError::internal("the bookcase identifier is taken".to_owned()));
        }
        let uid: Id = match e {
            Some(i) => {
                let uid = self.users[i].id;
                self.set_avatars(false, uid, email, avatar_url);
                uid
            },
            None => {
                let name = make_unique_username(username, suffix);
                let row = User {
                    id: new_user_id,
                    username: name,
                    email: email.to_owned(),
                    avatar_url: own_text(avatar_url),
                };
                self.users.push(row);
                proof {
                    assert(self.users@.drop_last() =~= old(self).users@);
                    assert(user_ids(self.users@) =~= user_ids(old(self).users@).push(new_user_id));
                    assert(user_emails(self.users@) =~= user_emails(old(self).users@).push(email@));
                    assert forall|t: int| 0 <= t < user_emails(old(self).users@).len() implies user_emails(
                        old(self).users@,
                    )[t] != email@ by {
                        assert(old(self).users@[t].email@ != email@);
                    }
                }
                new_user_id
            },
        };
        self.accounts.push(
            OauthAccount {
                user_id: uid,
                provider: provider.to_owned(),
                provider_user_id: provider_user_id.to_owned(),
                provider_email: email.to_owned(),
            },
        );
        let ghost mid = self.bookcases@;
        self.bookcases.push(
            Bookcase {
                id: new_bookcase_id,
                user_id: uid,
                name: "My Bookcase".to_owned(),
                position: 0,
                created_at,
            },
        );
        assert(bookcase_ids(self.bookcases@) =~= bookcase_ids(mid).push(new_bookcase_id));
        assert(self.accounts@.drop_last() =~= old(self).accounts@);
        assert(self.bookcases@.drop_last() =~= old(self).bookcases@);
        proof {
            let keys = account_keys(old(self).accounts@);
            let key = (provider@, provider_user_id@);
            assert(account_keys(self.accounts@) =~= keys.push(key));
            assert forall|t: int| 0 <= t < keys.len() implies keys[t] != key by {
                assert(old(self).accounts@[t].provider@ != provider@
                    || old(self).accounts@[t].provider_user_id@ != provider_user_id@);
            }
        }
        Ok(uid)
    }
}

/// A first match within a prefix is the first match of the whole list.
proof fn lemma_account_prefix(s: Seq<OauthAccount>, provider: Seq<char>, pid: Seq<char>, n: int)
    requires
        0 <= n <= s.len(),
        account_index(s.take(n), provider, pid) >= 0,
    ensures
        account_index(s, provider, pid) == account_index(s.take(n), provider, pid),
    decreases s.len() - n,
{
    if n < s.len() {
        assert(s.take(n + 1).drop_last() == s.take(n));
        lemma_account_prefix(s, provider, pid, n + 1);
    } else {
        assert(s.take(n) == s);
    }
}

/// A first match within a prefix is the first match of the whole list.
proof fn lemma_email_prefix(s: Seq<User>, email: Seq<char>, n: int)
    requires
        0 <= n <= s.len(),
        email_index(s.take(n), email) >= 0,
    ensures
        email_index(s, email) == email_index(s.take(n), email),
    decreases s.len() - n,
{
    if n < s.len() {
        assert(s.take(n + 1).drop_last() == s.take(n));
        lemma_email_prefix(s, email, n + 1);
    } else {
        assert(s.take(n) == s);
    }
}

} // verus!

verus! {

/// After a successful sign-in, the account leads to the user it returned.
pub proof fn lemma_signed_in_account(
    before: Catalog,
    after: Catalog,
    uid: Id,
    provider: Seq<char>,
    pid: Seq<char>,
    email: Seq<char>,
    username: Seq<char>,
    avatar: Option<Seq<char>>,
    suffix: Id,
    new_user_id: Id,
    new_bookcase_id: Id,
    created_at: i64,
)
    requires
        signed_in(before, after, Ok(uid), provider, pid, email, username, avatar, suffix, new_user_id, new_bookcase_id, created_at),
    ensures
        account_user(after, provider, pid) == Some(uid),
{
    lemma_account_index(before.accounts@, provider, pid);
    if account_index(before.accounts@, provider, pid) < 0 {
        let s = after.accounts@;
        assert(s.drop_last() == before.accounts@);
    }
}

/// The users of `a` and `b` agree, in order, in identifier, user name, address
/// and avatar text.
pub open spec fn users_alike(a: Seq<User>, b: Seq<User>) -> bool {
    &&& a.len() == b.len()
    &&& forall|i: int|
        0 <= i < a.len() ==> {
            &&& (#[trigger] a[i]).id == b[i].id
            &&& a[i].username == b[i].username
            &&& a[i].email == b[i].email
            &&& text_of(a[i].avatar_url) == text_of(b[i].avatar_url)
        }
}

/// After a successful sign-in, every user with the returned identifier carries
/// the avatar given to it.
proof fn lemma_signed_in_avatar(
    before: Catalog,
    after: Catalog,
    uid: Id,
    provider: Seq<char>,
    pid: Seq<char>,
    email: Seq<char>,
    username: Seq<char>,
    avatar: Option<Seq<char>>,
    suffix: Id,
    new_user_id: Id,
    new_bookcase_id: Id,
    created_at: i64,
)
    requires
        before.wf(),
        signed_in(before, after, Ok(uid), provider, pid, email, username, avatar, suffix, new_user_id, new_bookcase_id, created_at),
    ensures
        forall|i: int|
            0 <= i < after.users@.len() && (#[trigger] after.users@[i]).id == uid ==> text_of(
                after.users@[i].avatar_url,
            ) == avatar,
{
    lemma_account_index(before.accounts@, provider, pid);
    lemma_email_index(before.users@, email);
    if account_index(before.accounts@, provider, pid) < 0 {
        let e = email_index(before.users@, email);
        if e >= 0 {
            assert forall|i: int|
                0 <= i < after.users@.len() && (#[trigger] after.users@[i]).id == uid implies text_of(
                    after.users@[i].avatar_url,
                ) == avatar by {
                assert(before.users@[i].id == uid);
                assert(user_ids(before.users@)[i] == user_ids(before.users@)[e]);
                assert(before.users@[e].email@ == email);
            }
        } else {
            assert forall|i: int|
                0 <= i < after.users@.len() && (#[trigger] after.users@[i]).id == uid implies text_of(
                    after.users@[i].avatar_url,
                ) == avatar by {
                if i < before.users@.len() {
                    assert(after.users@.drop_last()[i] == after.users@[i]);
                    assert(user_ids(before.users@)[i] == uid);
                }
            }
        }
    }
}

/// Signing in again with the same account returns the same user and changes no
/// account, bookcase, shelf or book; with the same avatar, it changes no user
/// either.
pub proof fn lemma_sign_in_twice(
    c0: Catalog,
    c1: Catalog,
    c2: Catalog,
    uid: Id,
    r2: Result<Id, AppError>,
    provider: Seq<char>,
    pid: Seq<char>,
    email1: Seq<char>,
    email2: Seq<char>,
    username1: Seq<char>,
    username2: Seq<char>,
    avatar1: Option<Seq<char>>,
    avatar2: Option<Seq<char>>,
    suffix1: Id,
    suffix2: Id,
    user_id1: Id,
    user_id2: Id,
    bookcase_id1: Id,
    bookcase_id2: Id,
    created_at1: i64,
    created_at2: i64,
)
    requires
        c0.wf(),
        signed_in(c0, c1, Ok(uid), provider, pid, email1, username1, avatar1, suffix1, user_id1, bookcase_id1, created_at1),
        signed_in(c1, c2, r2, provider, pid, email2, username2, avatar2, suffix2, user_id2, bookcase_id2, created_at2),
    ensures
        r2 == Ok::<Id, AppError>(uid),
        c2.accounts@ == c1.accounts@,
        c2.bookcases@ == c1.bookcases@,
        c2.shelves@ == c1.shelves@,
        c2.books@ == c1.books@,
        avatar2 == avatar1 ==> users_alike(c2.users@, c1.users@),
{
    lemma_signed_in_account(c0, c1, uid, provider, pid, email1, username1, avatar1, suffix1, user_id1, bookcase_id1, created_at1);
    lemma_signed_in_avatar(c0, c1, uid, provider, pid, email1, username1, avatar1, suffix1, user_id1, bookcase_id1, created_at1);
    if avatar2 == avatar1 {
        assert forall|i: int| 0 <= i < c2.users@.len() implies {
            &&& (#[trigger] c2.users@[i]).id == c1.users@[i].id
            &&& c2.users@[i].username == c1.users@[i].username
            &&& c2.users@[i].email == c1.users@[i].email
            &&& text_of(c2.users@[i].avatar_url) == text_of(c1.users@[i].avatar_url)
        } by {
            assert(c2.users@[i].id == c1.users@[i].id);
        }
    }
}

/// A user who signs in for the first time has exactly one bookcase, "My Bookcase".
pub proof fn lemma_first_sign_in_bookcase(
    before: Catalog,
    after: Catalog,
    uid: Id,
    provider: Seq<char>,
    pid: Seq<char>,
    email: Seq<char>,
    username: Seq<char>,
    avatar: Option<Seq<char>>,
    suffix: Id,
    new_user_id: Id,
    new_bookcase_id: Id,
    created_at: i64,
)
    requires
        signed_in(before, after, Ok(uid), provider, pid, email, username, avatar, suffix, new_user_id, new_bookcase_id, created_at),
        account_user(before, provider, pid) is None,
        before.user_bookcases(uid).len() == 0,
    ensures
        after.bookcase_listing(uid).len() == 1,
        after.bookcase_listing(uid)[0].id == new_bookcase_id,
        after.bookcase_listing(uid)[0].name@ == "My Bookcase"@,
        after.bookcase_listing(uid)[0].position == 0,
{
    let b = after.bookcases@.last();
    assert(after.bookcases@ == before.bookcases@.push(b)) by {
        assert(after.bookcases@ =~= after.bookcases@.drop_last().push(b));
    }
    let o = before.user_bookcases(uid);
    assert(crate::rows::bookcase_positions(o) =~= Seq::<i32>::empty());
    crate::catalog::bookcases::lemma_create_then_list(before, after, uid, b);
    assert(before.bookcase_listing(uid) =~= Seq::<Bookcase>::empty());
}

} // verus!
