use ag_gateway::cookie::extract_session_from_cookie;
use ag_gateway::errors::{auth_error_status, pool_error_status, AuthError, PoolError};
use ag_gateway::session::SessionStore;
use ag_gateway::webauth::AuthService;

#[test]
fn test_extract_session_from_cookie() {
    let cookie = "other=value; ag_session=abc123; another=test";
    assert_eq!(
        extract_session_from_cookie(Some(cookie)),
        Some("abc123".to_string())
    );

    let no_session = "other=value; another=test";
    assert_eq!(extract_session_from_cookie(Some(no_session)), None);

    assert_eq!(extract_session_from_cookie(None), None);
}

#[test]
fn test_extract_session() {
    let cookie = "ag_session=test123; other=value";
    assert_eq!(
        extract_session_from_cookie(Some(cookie)),
        Some("test123".to_string())
    );
}

#[test]
fn extract_session_first_match_and_blanks() {
    assert_eq!(
        extract_session_from_cookie(Some("  ag_session=a1  ")),
        Some("a1".to_string())
    );
    assert_eq!(
        extract_session_from_cookie(Some("ag_session=first; ag_session=second")),
        Some("first".to_string())
    );
    assert_eq!(extract_session_from_cookie(Some("")), None);
    assert_eq!(extract_session_from_cookie(Some("ag_session=")), Some(String::new()));
}

#[test]
fn setup_password_twice_fails_forbidden() {
    let mut svc = AuthService::new();
    assert!(!svc.is_password_set());
    let first = svc.setup_password("secret1", 1_000);
    assert!(first.is_ok());
    assert!(svc.is_password_set());
    let second = svc.setup_password("secret1", 1_001);
    assert_eq!(second.unwrap_err(), AuthError::AlreadyConfigured);
    assert_eq!(auth_error_status(AuthError::AlreadyConfigured), 403);
}

#[test]
fn setup_password_too_short() {
    let mut svc = AuthService::new();
    let r = svc.setup_password("abc", 0);
    assert_eq!(r.unwrap_err(), AuthError::PasswordTooShort);
    assert!(!svc.is_password_set());
    assert_eq!(auth_error_status(AuthError::PasswordTooShort), 400);
}

#[test]
fn setup_then_login_and_session_window() {
    let mut svc = AuthService::new();
    let t0: i64 = 50_000;
    let setup_token = svc.setup_password("secret1", t0).unwrap();
    assert_eq!(setup_token.chars().count(), 43);

    let login_token = svc.login("secret1", t0).unwrap();
    assert_eq!(login_token.chars().count(), 43);
    // The token is URL-safe base64 of 256 random bits.
    assert!(login_token
        .chars()
        .all(|c| c.is_ascii_alphanumeric() || c == '-' || c == '_'));

    // Valid strictly before 24 hours elapse, invalid at and after.
    assert!(svc.is_valid_at(&login_token, t0));
    assert!(svc.is_valid_at(&login_token, t0 + 86_399));
    assert!(!svc.is_valid_at(&login_token, t0 + 86_400));
    assert!(!svc.is_valid_at(&login_token, t0 + 100_000));
}

#[test]
fn login_wrong_password_fails() {
    let mut svc = AuthService::new();
    svc.setup_password("secret1", 0).unwrap();
    let r = svc.login("secret2", 1);
    assert_eq!(r.unwrap_err(), AuthError::InvalidCredential);
    assert_eq!(auth_error_status(AuthError::InvalidCredential), 401);
}

#[test]
fn remaining_status_codes() {
    assert_eq!(auth_error_status(AuthError::HashFailure), 500);
    assert_eq!(pool_error_status(PoolError::Store), 500);
}

#[test]
fn session_cookie_name_is_fixed() {
    assert_eq!(ag_gateway::cookie::session_cookie_name(), "ag_session");
}

#[test]
fn login_without_credential_fails() {
    let mut svc = AuthService::new();
    let r = svc.login("anything", 0);
    assert_eq!(r.unwrap_err(), AuthError::NotConfigured);
    // Both login failures share one visible status, so the reply does not
    // say whether the credential was missing or the password wrong.
    assert_eq!(
        auth_error_status(AuthError::NotConfigured),
        auth_error_status(AuthError::InvalidCredential)
    );
    assert_eq!(auth_error_status(AuthError::NotConfigured), 401);
}

#[test]
fn login_purges_expired_sessions() {
    let mut svc = AuthService::new();
    let t0: i64 = 10_000;
    let early = svc.setup_password("secret1", t0).unwrap();
    // A day later the first session has expired; login purges it.
    let late = svc.login("secret1", t0 + 86_400).unwrap();
    assert!(!svc.is_valid_at(&early, t0 + 86_400));
    assert!(svc.is_valid_at(&late, t0 + 86_400));
}

#[test]
fn logout_is_idempotent() {
    let mut svc = AuthService::new();
    let token = svc.setup_password("secret1", 0).unwrap();
    assert!(svc.is_valid_at(&token, 1));
    svc.logout(&token);
    assert!(!svc.is_valid_at(&token, 1));
    svc.logout(&token);
    assert!(!svc.is_valid_at(&token, 1));
}

#[test]
fn auth_status_reports_flags() {
    let mut svc = AuthService::new();
    let none: Option<&String> = None;
    let status = svc.auth_status(none, 0);
    assert!(!status.password_set);
    assert!(!status.logged_in);

    let token = svc.setup_password("secret1", 100).unwrap();
    let status = svc.auth_status(Some(&token), 101);
    assert!(status.password_set);
    assert!(status.logged_in);

    let stranger = "not-a-token".to_string();
    let status = svc.auth_status(Some(&stranger), 101);
    assert!(status.password_set);
    assert!(!status.logged_in);
}

#[test]
fn session_store_expiry_and_cleanup() {
    let mut store = SessionStore::new();
    let a = "token-a".to_string();
    let b = "token-b".to_string();
    store.create_session(&a, 0);
    store.create_session(&b, 50_000);
    assert_eq!(store.count(), 2);
    assert!(store.is_valid_at(&a, 86_399));
    assert!(!store.is_valid_at(&a, 86_400));
    assert!(store.is_valid_at(&b, 86_400));

    store.cleanup_expired(86_400);
    assert_eq!(store.count(), 1);
    assert!(!store.is_valid_at(&a, 86_400));
    assert!(store.is_valid_at(&b, 86_400));

    store.remove_session(&b);
    assert_eq!(store.count(), 0);
}

#[test]
fn resumed_credential_allows_login() {
    let mut fresh = AuthService::new();
    let hash_holder = fresh.setup_password("secret1", 0).map(|_| ()).ok();
    assert!(hash_holder.is_some());

    // A service resumed without a credential behaves as unconfigured.
    let mut blank = AuthService::with_credential(None);
    assert!(!blank.is_password_set());
    assert_eq!(blank.login("secret1", 0).unwrap_err(), AuthError::NotConfigured);
}
