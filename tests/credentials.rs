use timetracker::auth::{
    after_login, after_probe, begin_auth, usable_token, AuthStep, LoginRequest, TokenCache,
    TOKEN_LIFETIME_SECS,
};
use timetracker::error::Error;

#[test]
fn issued_cache_expires_in_twenty_three_hours() {
    let c = TokenCache::issue("t".to_string(), 1_000);
    assert_eq!(c.expires_at, 1_000 + 23 * 3600);
    assert_eq!(TOKEN_LIFETIME_SECS, 82_800);
    assert!(c.is_valid_at(1_000));
    assert!(!c.is_valid_at(1_000 + 82_800));
}

#[test]
fn expired_cache_is_never_used() {
    let c = TokenCache { token: "t".to_string(), expires_at: 500 };
    assert_eq!(usable_token(Some(c.clone()), 500), None);
    assert_eq!(usable_token(Some(c), 501), None);
}

#[test]
fn fresh_cache_is_used() {
    let c = TokenCache { token: "t".to_string(), expires_at: 500 };
    assert_eq!(usable_token(Some(c), 499), Some("t".to_string()));
    assert_eq!(usable_token(None, 0), None);
}

#[test]
fn cached_token_is_probed_first() {
    assert!(matches!(begin_auth(Some("t".to_string())), AuthStep::Probe(t) if t == "t"));
    assert!(matches!(begin_auth(None), AuthStep::Login));
}

#[test]
fn probe_accepts_success_and_not_found() {
    assert!(matches!(after_probe("t".to_string(), Some(200)), AuthStep::Authenticated(_)));
    assert!(matches!(after_probe("t".to_string(), Some(404)), AuthStep::Authenticated(_)));
    assert!(matches!(after_probe("t".to_string(), Some(401)), AuthStep::Login));
    assert!(matches!(after_probe("t".to_string(), None), AuthStep::Login));
}

#[test]
fn login_outcomes() {
    assert!(matches!(
        after_login(Some(200), Some("new".to_string())),
        AuthStep::Authenticated(t) if t == "new"
    ));
    assert!(matches!(
        after_login(Some(401), None),
        AuthStep::Failed(Error::AuthenticationFailed(401))
    ));
    assert!(matches!(after_login(Some(200), None), AuthStep::Failed(Error::DeserializationError)));
    assert!(matches!(after_login(None, None), AuthStep::Failed(Error::Transport)));
}

#[test]
fn login_request_holds_credentials() {
    let r = LoginRequest::new("u".to_string(), "p".to_string());
    assert_eq!(r.username, "u");
    assert_eq!(r.password, "p");
}
