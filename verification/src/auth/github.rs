use vstd::prelude::*;

use crate::auth::LoginProfile;
use crate::error::{AppError, INTERNAL_SERVER_ERROR};
use crate::rows::copy_text;
use crate::text::{decimal, i64_to_decimal};

verus! {

/// What GitHub sends back to the sign-in callback.
pub struct CallbackParams {
    pub code: String,
    pub state: String,
}

/// The GitHub account of the user who signs in.
pub struct GitHubUserInfo {
    pub id: i64,
    pub login: String,
    pub name: Option<String>,
    pub avatar_url: Option<String>,
}

/// One e-mail address of a GitHub account.
pub struct GitHubEmail {
    pub email: String,
    pub primary: bool,
    pub verified: bool,
}

/// The place of the first address that is both primary and verified, or -1.
pub open spec fn primary_verified_index(emails: Seq<GitHubEmail>) -> int
    decreases emails.len(),
{
    if emails.len() == 0 {
        -1
    } else {
        let i = primary_verified_index(emails.drop_last());
        if i >= 0 {
            i
        } else if emails.last().primary && emails.last().verified {
            emails.len() - 1
        } else {
            -1
        }
    }
}

/// The name shown for a GitHub user: their name if they gave one, else their login.
pub open spec fn display_name(info: GitHubUserInfo) -> Seq<char> {
    match info.name {
        Some(n) => n@,
        None => info.login@,
    }
}

/// Checks the returned state against the `github_csrf` cookie.
pub fn verify_state(cookie: Option<&str>, params: &CallbackParams) -> (r: Result<(), AppError>)
    ensures
        match cookie {
            None => r matches Err(e) && e.status == INTERNAL_SERVER_ERROR && e.message@
                == "Missing github_csrf cookie"@,
            Some(c) => if c@ == params.state@ {
                r is Ok
            } else {
                r matches Err(e) && e.status == INTERNAL_SERVER_ERROR && e.message@ == "CSRF token mismatch"@
            },
        },
{
    let r = crate::auth::check_state("github_csrf", cookie, params.state.as_str());
    proof {
        assert("Missing "@ + "github_csrf"@ + " cookie"@ =~= "Missing github_csrf cookie"@) by {
            reveal_strlit("Missing ");
            reveal_strlit("github_csrf");
            reveal_strlit(" cookie");
            reveal_strlit("Missing github_csrf cookie");
        }
    }
    r
}

/// The first address that is primary and verified; without one, signing in fails
/// with a server error ("No primary verified email on GitHub account").
pub fn primary_verified_email(emails: &Vec<GitHubEmail>) -> (r: Result<String, AppError>)
    ensures
        primary_verified_index(emails@) >= 0 ==> r == Ok::<String, AppError>(
            emails@[primary_verified_index(emails@)].email,
        ),
        primary_verified_index(emails@) < 0 ==> (r matches Err(e) && e.status == INTERNAL_SERVER_ERROR
            && e.message@ == "No primary verified email on GitHub account"@),
{
    let mut i: usize = 0;
    while i < emails.len()
        invariant
            i <= emails.len(),
            primary_verified_index(emails@.take(i as int)) == -1,
        decreases emails.len() - i,
    {
        assert(emails@.take(i + 1).drop_last() == emails@.take(i as int));
        if emails[i].primary && emails[i].verified {
            proof {
                lemma_index_prefix(emails@, i as int + 1);
            }
            return Ok(emails[i].email.clone());
        }
        i = i + 1;
    }
    assert(emails@.take(emails.len() as int) == emails@);
    Err(AppError::internal("No primary verified email on GitHub account".to_owned()))
}

/// A first match within a prefix is the first match of the whole list.
proof fn lemma_index_prefix(emails: Seq<GitHubEmail>, n: int)
    requires
        0 <= n <= emails.len(),
        primary_verified_index(emails.take(n)) >= 0,
    ensures
        primary_verified_index(emails) == primary_verified_index(emails.take(n)),
    decreases emails.len() - n,
{
    if n < emails.len() {
        assert(emails.take(n + 1).drop_last() == emails.take(n));
        lemma_index_prefix(emails, n + 1);
    } else {
        assert(emails.take(n) == emails);
    }
}

/// What a GitHub sign-in tells about the user: the account number as the
/// provider's identifier, the first primary verified address, the display name
/// and the avatar.
pub fn profile(info: &GitHubUserInfo, emails: &Vec<GitHubEmail>) -> (r: Result<LoginProfile, AppError>)
    ensures
        primary_verified_index(emails@) >= 0 <==> r is Ok,
        match r {
            Ok(p) => {
                &&& p.provider@ == "github"@
                &&& p.provider_user_id@ == decimal(info.id as int)
                &&& p.email == emails@[primary_verified_index(emails@)].email
                &&& p.username@ == display_name(*info)
                &&& p.avatar_url == info.avatar_url
            },
            Err(e) => {
                &&& e.status == INTERNAL_SERVER_ERROR
                &&& e.message@ == "No primary verified email on GitHub account"@
            },
        },
{
    let email = match primary_verified_email(emails) {
        Ok(e) => e,
        Err(e) => {
            return Err(e);
        },
    };
    let username = match &info.name {
        Some(n) => n.clone(),
        None => info.login.clone(),
    };
    Ok(LoginProfile {
        provider: "github".to_owned(),
        provider_user_id: i64_to_decimal(info.id),
        email,
        username,
        avatar_url: copy_text(&info.avatar_url),
    })
}

} // verus!
