use vstd::prelude::*;

use crate::auth::LoginProfile;
use crate::error::{AppError, INTERNAL_SERVER_ERROR};
use crate::rows::copy_text;

verus! {

/// What Google sends back to the sign-in callback.
pub struct CallbackParams {
    pub code: String,
    pub state: String,
}

/// The Google account of the user who signs in.
pub struct GoogleUserInfo {
    pub sub: String,
    pub email: String,
    pub name: String,
    pub picture: Option<String>,
}

/// Checks the returned state against the `google_csrf` cookie.
pub fn verify_state(cookie: Option<&str>, params: &CallbackParams) -> (r: Result<(), AppError>)
    ensures
        match cookie {
            None => r matches Err(e) && e.status == INTERNAL_SERVER_ERROR && e.message@
                == "Missing google_csrf cookie"@,
            Some(c) => if c@ == params.state@ {
                r is Ok
            } else {
                r matches Err(e) && e.status == INTERNAL_SERVER_ERROR && e.message@ == "CSRF token mismatch"@
            },
        },
{
    let r = crate::auth::check_state("google_csrf", cookie, params.state.as_str());
    proof {
        assert("Missing "@ + "google_csrf"@ + " cookie"@ =~= "Missing google_csrf cookie"@) by {
            reveal_strlit("Missing ");
            reveal_strlit("google_csrf");
            reveal_strlit(" cookie");
            reveal_strlit("Missing google_csrf cookie");
        }
    }
    r
}

/// What a Google sign-in tells about the user: the subject as the provider's
/// identifier, the address, the name and the picture.
pub fn profile(info: &GoogleUserInfo) -> (p: LoginProfile)
    ensures
        p.provider@ == "google"@,
        p.provider_user_id == info.sub,
        p.email == info.email,
        p.username == info.name,
        p.avatar_url == info.picture,
{
    LoginProfile {
        provider: "google".to_owned(),
        provider_user_id: info.sub.clone(),
        email: info.email.clone(),
        username: info.name.clone(),
        avatar_url: copy_text(&info.picture),
    }
}

} // verus!
