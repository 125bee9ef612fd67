use vstd::prelude::*;
use vstd::string::StrSliceExecFns;

use crate::catalog::users::signed_in;
use crate::catalog::Catalog;
use crate::error::{AppError, INTERNAL_SERVER_ERROR};
use crate::ids::Id;
use crate::rows::str_text_of;
use crate::text::{
    format_uuid, lemma_uuid_hyphenated_len, lowercase, parse_uuid, random_uuid, replace_spaces, to_lowercase,
    underscored, uuid_from_text, uuid_hyphenated,
};

pub mod github;
pub mod google;

verus! {

/// The user a request comes from, read from its session cookie.
pub struct CurrentUser(pub Id);

/// What the service shows a signed-in user about themselves.
pub struct UserInfo {
    pub username: String,
    pub email: String,
    pub avatar_url: Option<String>,
}

/// What an identity provider told about a user who signed in.
pub struct LoginProfile {
    pub provider: String,
    pub provider_user_id: String,
    pub email: String,
    pub username: String,
    pub avatar_url: Option<String>,
}

/// Where the browser goes after signing in when no address is configured.
pub open spec fn default_frontend_url() -> Seq<char> {
    "http://localhost:5173"@
}

/// The user name given to someone who signs in for the first time: their name in
/// lower case with spaces made underscores, an underscore, and the first six
/// digits of a random UUID.
pub open spec fn unique_username(username: Seq<char>, suffix: Id) -> Seq<char> {
    underscored(lowercase(username)) + seq!['_'] + uuid_hyphenated(suffix).take(6)
}

impl CurrentUser {
    /// The user whose identifier the session cookie holds; none (the request is
    /// answered 401) without a cookie or when it holds no UUID. A cookie written by
    /// `session_cookie_value` is read back as its user.
    pub fn from_cookie(value: Option<&str>) -> (r: Option<CurrentUser>)
        ensures
            r == match value {
                Some(v) => match uuid_from_text(v@) {
                    Some(u) => Some(CurrentUser(u)),
                    None => None,
                },
                None => None,
            },
            forall|u: Id| value matches Some(v) && v@ == uuid_hyphenated(u) ==> r == Some(CurrentUser(u)),
    {
        match value {
            Some(v) => match parse_uuid(v) {
                Some(u) => Some(CurrentUser(u)),
                None => None,
            },
            None => None,
        }
    }
}

/// What the session cookie of a signed-in user holds: their identifier, hyphenated.
pub fn session_cookie_value(user: Id) -> (r: String)
    ensures
        r@ == uuid_hyphenated(user),
{
    format_uuid(user)
}

/// Checks the state that the identity provider sent back against the one kept in
/// the cookie `cookie_name`: a missing cookie ("Missing <cookie_name> cookie") and
/// a different state ("CSRF token mismatch") are server errors.
pub fn check_state(cookie_name: &str, cookie: Option<&str>, state: &str) -> (r: Result<(), AppError>)
    ensures
        match cookie {
            None => r matches Err(e) && e.status == INTERNAL_SERVER_ERROR && e.message@ == "Missing "@
                + cookie_name@ + " cookie"@,
            Some(c) => if c@ == state@ {
                r is Ok
            } else {
                r matches Err(e) && e.status == INTERNAL_SERVER_ERROR && e.message@ == "CSRF token mismatch"@
            },
        },
{
    match cookie {
        None => {
            let mut m = "Missing ".to_owned();
            m.append(cookie_name);
            m.append(" cookie");
            Err(AppError::internal(m))
        },
        Some(c) => {
            if c.to_owned() == state.to_owned() {
                Ok(())
            } else {
                Err(AppError::internal("CSRF token mismatch".to_owned()))
            }
        },
    }
}

/// Where the browser goes after signing in: the configured address, else the
/// local development address.
pub fn frontend_url(configured: Option<String>) -> (r: String)
    ensures
        r@ == match configured {
            Some(u) => u@,
            None => default_frontend_url(),
        },
{
    match configured {
        Some(u) => u,
        None => "http://localhost:5173".to_owned(),
    }
}

/// The user name for someone signing in for the first time, with `suffix` as the
/// random UUID.
pub fn make_unique_username(username: &str, suffix: Id) -> (r: String)
    ensures
        r@ == unique_username(username@, suffix),
{
    let lower = to_lowercase(username);
    let mut r = replace_spaces(lower.as_str());
    r.append("_");
    let full = format_uuid(suffix);
    proof {
        lemma_uuid_hyphenated_len(suffix);
    }
    let head = full.as_str().substring_char(0, 6);
    r.append(head);
    proof {
        reveal_strlit("_");
        assert(full@.subrange(0, 6) == full@.take(6));
        assert(r@ =~= unique_username(username@, suffix));
    }
    r
}

/// Finds or creates the user who signs in with the account `provider_user_id` of
/// `provider` (see `signed_in`); a new user's name ends in six digits of a fresh
/// random UUID, and `new_user_id` and `new_bookcase_id` are the identifiers of a
/// new user and of their first bookcase. Returns the user's identifier.
pub fn upsert_user(
    catalog: &mut Catalog,
    provider: &str,
    provider_user_id: &str,
    email: &str,
    username: &str,
    avatar_url: Option<&str>,
    new_user_id: Id,
    new_bookcase_id: Id,
    created_at: i64,
) -> (r: Result<Id, AppError>)
    ensures
        exists|suffix: Id|
            signed_in(
                *old(catalog),
                *final(catalog),
                r,
                provider@,
                provider_user_id@,
                email@,
                username@,
                str_text_of(avatar_url),
                suffix,
                new_user_id,
                new_bookcase_id,
                created_at,
            ),
        old(catalog).wf() ==> final(catalog).wf(),
{
    let suffix = random_uuid();
    catalog.upsert_user_with(
        provider,
        provider_user_id,
        email,
        username,
        avatar_url,
        suffix,
        new_user_id,
        new_bookcase_id,
        created_at,
    )
}

} // verus!
