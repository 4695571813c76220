use vstd::prelude::*;

use crate::error::Error;
use crate::kv::{is_success, NOT_FOUND};

verus! {

/// How long a freshly issued credential is trusted: 23 hours, one hour short
/// of the 24-hour token lifetime that the server is expected to grant.
pub const TOKEN_LIFETIME_SECS: i64 = 82800;

/// A persisted bearer credential and the instant (Unix seconds) after which it
/// is no longer used.
#[derive(Clone, Debug)]
pub struct TokenCache {
    pub token: String,
    pub expires_at: i64,
}

impl TokenCache {
    /// The cache record for a token obtained at `now`.
    pub fn issue(token: String, now: i64) -> (r: TokenCache)
        requires
            now <= i64::MAX - TOKEN_LIFETIME_SECS,
        ensures
            r.token == token,
            r.expires_at == now + TOKEN_LIFETIME_SECS,
    {
        TokenCache { token, expires_at: now + TOKEN_LIFETIME_SECS }
    }

    /// Whether the credential may still be used at `now`.
    pub fn is_valid_at(&self, now: i64) -> (r: bool)
        ensures
            r == (now < self.expires_at),
    {
        now < self.expires_at
    }
}

/// The cached token, if a record was read and it has not expired at `now`.
/// An absent, unreadable or expired record all mean no cached credential.
pub fn usable_token(cache: Option<TokenCache>, now: i64) -> (r: Option<String>)
    ensures
        match cache {
            Some(c) => if now < c.expires_at {
                r == Some(c.token)
            } else {
                r is None
            },
            None => r is None,
        },
        r is Some ==> (cache matches Some(c) && now < c.expires_at),
{
    match cache {
        Some(c) => {
            if c.is_valid_at(now) {
                Some(c.token)
            } else {
                None
            }
        },
        None => None,
    }
}

/// The body of a login request.
#[derive(Clone, Debug)]
pub struct LoginRequest {
    pub username: String,
    pub password: String,
}

/// The body of a successful login response.
#[derive(Clone, Debug)]
pub struct LoginResponse {
    pub token: String,
}

impl LoginRequest {
    pub fn new(username: String, password: String) -> (r: LoginRequest)
        ensures
            r.username == username,
            r.password == password,
    {
        LoginRequest { username, password }
    }
}

/// What authentication does next.
#[derive(Debug)]
pub enum AuthStep {
    /// Check a cached token with a cheap read of the store.
    Probe(String),
    /// Send the username and password to the login endpoint.
    Login,
    /// A valid token is at hand.
    Authenticated(String),
    Failed(Error),
}

/// The first step: probe a cached token, or log in when there is none.
pub fn begin_auth(cached: Option<String>) -> (r: AuthStep)
    ensures
        match cached {
            Some(t) => r == AuthStep::Probe(t),
            None => r is Login,
        },
{
    match cached {
        Some(t) => AuthStep::Probe(t),
        None => AuthStep::Login,
    }
}

/// Whether the probe's answer accepts the token: a 2xx, or a 404 (no data yet).
/// No answer at all (`None`) rejects it.
pub open spec fn probe_accepts(status: Option<u16>) -> bool {
    match status {
        Some(s) => is_success(s) || s == NOT_FOUND,
        None => false,
    }
}

/// After the probe of `token`: keep it if the store accepted it, else log in.
pub fn after_probe(token: String, status: Option<u16>) -> (r: AuthStep)
    ensures
        probe_accepts(status) ==> r == AuthStep::Authenticated(token),
        !probe_accepts(status) ==> r is Login,
{
    let accepted = match status {
        Some(s) => (200 <= s && s <= 299) || s == NOT_FOUND,
        None => false,
    };
    if accepted {
        AuthStep::Authenticated(token)
    } else {
        AuthStep::Login
    }
}

/// After the login request: `status` is `None` when no answer came, `token`
/// is the token read from the body, if any.
pub fn after_login(status: Option<u16>, token: Option<String>) -> (r: AuthStep)
    ensures
        match status {
            None => r matches AuthStep::Failed(Error::Transport),
            Some(s) => if !is_success(s) {
                r matches AuthStep::Failed(Error::AuthenticationFailed(c)) && c == s
            } else {
                match token {
                    Some(t) => r == AuthStep::Authenticated(t),
                    None => r matches AuthStep::Failed(Error::DeserializationError),
                }
            },
        },
{
    match status {
        None => AuthStep::Failed(Error::Transport),
        Some(s) => {
            if !(200 <= s && s <= 299) {
                AuthStep::Failed(Error::AuthenticationFailed(s))
            } else {
                match token {
                    Some(t) => AuthStep::Authenticated(t),
                    None => AuthStep::Failed(Error::DeserializationError),
                }
            }
        },
    }
}

} // verus!
