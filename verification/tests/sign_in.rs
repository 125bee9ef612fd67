use nokkonenshelfapi::auth::github::{self, GitHubEmail, GitHubUserInfo};
use nokkonenshelfapi::auth::google::{self, GoogleUserInfo};
use nokkonenshelfapi::auth::{frontend_url, make_unique_username, session_cookie_value, upsert_user, CurrentUser};
use nokkonenshelfapi::catalog::Catalog;
use nokkonenshelfapi::error::{AppError, INTERNAL_SERVER_ERROR};
use nokkonenshelfapi::ids::Id;

const SAMPLE: Id = 0x550e8400_e29b_41d4_a716_446655440000;

#[test]
fn session_cookie_round_trip() {
    let v = session_cookie_value(SAMPLE);
    assert_eq!(v, "550e8400-e29b-41d4-a716-446655440000");
    match CurrentUser::from_cookie(Some(&v)) {
        Some(CurrentUser(u)) => assert_eq!(u, SAMPLE),
        None => panic!("not read back"),
    }
    match CurrentUser::from_cookie(Some("550E8400E29B41D4A716446655440000")) {
        Some(CurrentUser(u)) => assert_eq!(u, SAMPLE),
        None => panic!("simple form"),
    }
    assert!(CurrentUser::from_cookie(Some("not-a-uuid")).is_none());
    assert!(CurrentUser::from_cookie(Some("")).is_none());
}

#[test]
fn usernames_are_lower_case_with_underscores() {
    assert_eq!(make_unique_username("John Smith", SAMPLE), "john_smith_550e84");
    assert_eq!(make_unique_username("Ärla  Ö", 0), "ärla__ö_000000");
}

#[test]
fn frontend_address() {
    assert_eq!(frontend_url(None), "http://localhost:5173");
    assert_eq!(frontend_url(Some("https://shelf.example".to_string())), "https://shelf.example");
}

#[test]
fn csrf_state_checks() {
    let params = github::CallbackParams { code: "c".to_string(), state: "s1".to_string() };
    assert!(github::verify_state(Some("s1"), &params).is_ok());
    let missing = github::verify_state(None, &params).err().unwrap_or_else(|| panic!("missing"));
    assert_eq!(missing.status, INTERNAL_SERVER_ERROR);
    assert_eq!(missing.message, "Missing github_csrf cookie");
    let wrong = github::verify_state(Some("s2"), &params).err().unwrap_or_else(|| panic!("wrong"));
    assert_eq!(wrong.message, "CSRF token mismatch");
    let gparams = google::CallbackParams { code: "c".to_string(), state: "s".to_string() };
    let gmissing = google::verify_state(None, &gparams).err().unwrap_or_else(|| panic!("missing"));
    assert_eq!(gmissing.message, "Missing google_csrf cookie");
    assert!(google::verify_state(Some("s"), &gparams).is_ok());
}

fn email(e: &str, primary: bool, verified: bool) -> GitHubEmail {
    GitHubEmail { email: e.to_string(), primary, verified }
}

#[test]
fn github_profile_picks_primary_verified_email() {
    let info = GitHubUserInfo { id: -42, login: "octo".to_string(), name: None, avatar_url: Some("a.png".to_string()) };
    let emails = vec![email("a@x", true, false), email("b@x", false, true), email("c@x", true, true), email("d@x", true, true)];
    let p = github::profile(&info, &emails).unwrap_or_else(|_| panic!("profile"));
    assert_eq!(p.provider, "github");
    assert_eq!(p.provider_user_id, "-42");
    assert_eq!(p.email, "c@x");
    assert_eq!(p.username, "octo");
    assert_eq!(p.avatar_url, Some("a.png".to_string()));
    let named = GitHubUserInfo { id: 1234567, login: "octo".to_string(), name: Some("Octo Cat".to_string()), avatar_url: None };
    let q = github::profile(&named, &emails).unwrap_or_else(|_| panic!("profile"));
    assert_eq!(q.username, "Octo Cat");
    assert_eq!(q.provider_user_id, "1234567");
    let none: AppError = github::profile(&info, &vec![email("a@x", true, false)]).err().unwrap_or_else(|| panic!("none"));
    assert_eq!(none.status, INTERNAL_SERVER_ERROR);
    assert_eq!(none.message, "No primary verified email on GitHub account");
}

#[test]
fn google_profile_copies_the_account() {
    let info = GoogleUserInfo { sub: "g-1".to_string(), email: "g@x".to_string(), name: "Gee".to_string(), picture: None };
    let p = google::profile(&info);
    assert_eq!(p.provider, "google");
    assert_eq!(p.provider_user_id, "g-1");
    assert_eq!(p.email, "g@x");
    assert_eq!(p.username, "Gee");
    assert!(p.avatar_url.is_none());
}

#[test]
fn first_sign_in_makes_a_user_with_a_bookcase() {
    let mut c = Catalog::new();
    let uid = c
        .upsert_user_with("google", "g-1", "g@x", "Jane Doe", Some("pic"), SAMPLE, 10, 20, 5)
        .unwrap_or_else(|_| panic!("sign in"));
    assert_eq!(uid, 10);
    let me = c.me(uid).unwrap_or_else(|_| panic!("me"));
    assert_eq!(me.username, "jane_doe_550e84");
    assert_eq!(me.email, "g@x");
    assert_eq!(me.avatar_url, Some("pic".to_string()));
    let list = c.list_bookcases(uid);
    assert_eq!(list.len(), 1);
    assert_eq!(list[0].name, "My Bookcase");
    assert_eq!((list[0].id, list[0].position, list[0].created_at), (20, 0, 5));
}

#[test]
fn second_sign_in_finds_the_same_user() {
    let mut c = Catalog::new();
    let first = upsert_user(&mut c, "google", "g-1", "g@x", "Jane", None, 10, 20, 5).unwrap_or_else(|_| panic!("1"));
    let again = upsert_user(&mut c, "google", "g-1", "other@x", "Jane", Some("new"), 11, 21, 6).unwrap_or_else(|_| panic!("2"));
    assert_eq!(first, again);
    assert_eq!(c.users.len(), 1);
    assert_eq!(c.list_bookcases(first).len(), 1);
    assert_eq!(c.me(first).unwrap_or_else(|_| panic!("me")).avatar_url, Some("new".to_string()));
}

#[test]
fn another_provider_with_the_same_email_joins_the_user() {
    let mut c = Catalog::new();
    let first = upsert_user(&mut c, "google", "g-1", "g@x", "Jane", None, 10, 20, 5).unwrap_or_else(|_| panic!("1"));
    let joined = upsert_user(&mut c, "github", "77", "g@x", "jane", Some("gh"), 11, 21, 6).unwrap_or_else(|_| panic!("2"));
    assert_eq!(first, joined);
    assert_eq!(c.users.len(), 1);
    assert_eq!(c.accounts.len(), 2);
    assert_eq!(c.me(first).unwrap_or_else(|_| panic!("me")).avatar_url, Some("gh".to_string()));
    // The joined account brings another default bookcase.
    assert_eq!(c.list_bookcases(first).len(), 2);
}

#[test]
fn sign_in_with_a_taken_identifier_changes_nothing() {
    let mut c = Catalog::new();
    assert!(c.add_user(10, "x".to_string(), "x@x".to_string(), None).is_ok());
    match upsert_user(&mut c, "google", "g-1", "g@x", "Jane", None, 10, 20, 5) {
        Ok(_) => panic!("taken"),
        Err(e) => assert_eq!(e.status, INTERNAL_SERVER_ERROR),
    }
    assert_eq!(c.users.len(), 1);
    assert!(c.accounts.is_empty());
    assert!(c.bookcases.is_empty());
}

#[test]
fn users_need_their_own_address() {
    let mut c = Catalog::new();
    assert!(c.add_user(1, "a".to_string(), "a@x".to_string(), None).is_ok());
    assert!(c.add_user(2, "b".to_string(), "a@x".to_string(), None).is_err());
    assert!(c.add_user(1, "c".to_string(), "c@x".to_string(), None).is_err());
    match c.me(3) {
        Ok(_) => panic!("unknown"),
        Err(e) => {
            assert_eq!(e.status, INTERNAL_SERVER_ERROR);
            assert!(e.should_log());
        },
    }
    assert!(!AppError::bad_request("x".to_string()).should_log());
}

#[test]
fn the_same_sign_in_twice_changes_nothing() {
    let mut c = Catalog::new();
    let first = upsert_user(&mut c, "github", "77", "g@x", "Jane", Some("pic"), 10, 20, 5).unwrap_or_else(|_| panic!("1"));
    let users: Vec<(Id, String, String, Option<String>)> =
        c.users.iter().map(|u| (u.id, u.username.clone(), u.email.clone(), u.avatar_url.clone())).collect();
    let again = upsert_user(&mut c, "github", "77", "g@x", "Jane", Some("pic"), 10, 20, 5).unwrap_or_else(|_| panic!("2"));
    assert_eq!(first, again);
    let after: Vec<(Id, String, String, Option<String>)> =
        c.users.iter().map(|u| (u.id, u.username.clone(), u.email.clone(), u.avatar_url.clone())).collect();
    assert_eq!(users, after);
    assert_eq!((c.accounts.len(), c.bookcases.len(), c.shelves.len(), c.books.len()), (1, 1, 0, 0));
}
