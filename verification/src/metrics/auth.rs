//! Request authentication by API key.
//!
//! The key is taken from `Authorization: Bearer <api-key>`, or else from
//! `X-API-Key: <api-key>`.

use crate::text::{chars_of, same_text};
use vstd::prelude::*;

verus! {

/// Authentication configuration.
#[derive(Debug, PartialEq)]
pub struct AuthConfig {
    /// API key for authentication. If None, authentication is disabled.
    pub api_key: Option<String>,
    /// Whether authentication is enabled.
    pub enabled: bool,
}

/// Authentication errors.
#[derive(Clone, Copy, Debug, PartialEq, Eq, Structural)]
pub enum AuthError {
    /// Missing API key in request.
    MissingKey,
    /// Invalid API key provided.
    InvalidKey,
    /// Unauthorized access.
    Unauthorized,
}

impl AuthError {
    /// The status and the message that a refused request is answered with.
    pub fn response(&self) -> (r: (u16, &'static str))
        ensures
            match self {
                AuthError::MissingKey => r.0 == 401 && r.1@ == "Missing API key"@,
                AuthError::InvalidKey => r.0 == 401 && r.1@ == "Invalid API key"@,
                AuthError::Unauthorized => r.0 == 403 && r.1@ == "Unauthorized"@,
            },
    {
        match self {
            AuthError::MissingKey => (401, "Missing API key"),
            AuthError::InvalidKey => (401, "Invalid API key"),
            AuthError::Unauthorized => (403, "Unauthorized"),
        }
    }
}

/// The headers of a request that carry a key, as far as they are there and hold
/// text.
#[derive(Debug, PartialEq)]
pub struct KeyHeaders {
    pub authorization: Option<String>,
    pub x_api_key: Option<String>,
}

/// Whether a text says "true", in whatever case.
pub open spec fn says_true(text: Seq<char>) -> bool {
    &&& text.len() == 4
    &&& (text[0] == 't' || text[0] == 'T')
    &&& (text[1] == 'r' || text[1] == 'R')
    &&& (text[2] == 'u' || text[2] == 'U')
    &&& (text[3] == 'e' || text[3] == 'E')
}

/// Whether `text` starts with `prefix`.
pub open spec fn has_prefix(text: Seq<char>, prefix: Seq<char>) -> bool {
    text.len() >= prefix.len() && text.take(prefix.len() as int) == prefix
}

/// The key that a request carries: the bearer token, or else the API key header.
pub open spec fn carried_key(headers: KeyHeaders) -> Option<Seq<char>> {
    if headers.authorization matches Some(text) && has_prefix(text@, "Bearer "@) {
        Some(headers.authorization->0@.skip(7))
    } else {
        match headers.x_api_key {
            Some(key) => Some(key@),
            None => None,
        }
    }
}

fn is_true(text: &str) -> (r: bool)
    ensures
        r == says_true(text@),
{
    let chars: Vec<char> = chars_of(text);
    chars.len() == 4 && (chars[0] == 't' || chars[0] == 'T') && (chars[1] == 'r' || chars[1] == 'R')
        && (chars[2] == 'u' || chars[2] == 'U') && (chars[3] == 'e' || chars[3] == 'E')
}

impl AuthConfig {
    /// The configuration that the values of `ROUTER_AUTH_ENABLED` and `ROUTER_API_KEY`
    /// ask for. Without a key authentication stays disabled.
    pub fn from_env(auth_enabled: Option<String>, api_key: Option<String>) -> (r: Self)
        ensures
            r.api_key == api_key,
            r.enabled == (api_key is Some && (auth_enabled matches Some(text) && says_true(text@))),
    {
        let enabled: bool = match auth_enabled {
            Some(text) => is_true(text.as_str()),
            None => false,
        };
        AuthConfig { enabled: enabled && api_key.is_some(), api_key }
    }

    /// Whether these values ask for authentication without a key to check against.
    pub fn lacks_key(auth_enabled: &Option<String>, api_key: &Option<String>) -> (r: bool)
        ensures
            r == (api_key is None && (*auth_enabled matches Some(text) && says_true(text@))),
    {
        match auth_enabled {
            Some(text) => api_key.is_none() && is_true(text.as_str()),
            None => false,
        }
    }

    /// Whether a request with these headers is let through.
    ///
    /// # Errors
    /// * [`AuthError::MissingKey`] if the request carries no key.
    /// * [`AuthError::InvalidKey`] if it carries another than the configured one.
    /// * [`AuthError::Unauthorized`] if none is configured.
    pub fn authorize(&self, headers: &KeyHeaders) -> (r: Result<(), AuthError>)
        ensures
            r == (if !self.enabled {
                Ok(())
            } else {
                match (carried_key(*headers), self.api_key) {
                    (None, _) => Err(AuthError::MissingKey),
                    (Some(_), None) => Err(AuthError::Unauthorized),
                    (Some(key), Some(expected)) => if key == expected@ {
                        Ok(())
                    } else {
                        Err(AuthError::InvalidKey)
                    },
                }
            }),
    {
        if !self.enabled {
            return Ok(());
        }
        match extract_api_key(headers) {
            Some(key) => match &self.api_key {
                Some(expected) => {
                    if same_text(key.as_str(), expected.as_str()) {
                        Ok(())
                    } else {
                        Err(AuthError::InvalidKey)
                    }
                },
                None => Err(AuthError::Unauthorized),
            },
            None => Err(AuthError::MissingKey),
        }
    }
}

/// The part of a text behind a prefix, if it starts with it.
pub fn strip_prefix(text: &str, prefix: &str) -> (r: Option<String>)
    ensures
        match r {
            Some(rest) => has_prefix(text@, prefix@) && rest@ == text@.skip(prefix@.len() as int),
            None => !has_prefix(text@, prefix@),
        },
{
    let n: usize = prefix.unicode_len();
    let len: usize = text.unicode_len();
    if len < n {
        return None;
    }
    let start: &str = text.substring_char(0, n);
    proof {
        assert(text@.subrange(0, n as int) =~= text@.take(n as int));
    }
    if same_text(start, prefix) {
        proof {
            assert(text@.subrange(n as int, len as int) =~= text@.skip(n as int));
        }
        Some(text.substring_char(n, len).to_owned())
    } else {
        None
    }
}

/// The key that a request carries.
pub fn extract_api_key(headers: &KeyHeaders) -> (r: Option<String>)
    ensures
        match r {
            Some(key) => carried_key(*headers) == Some(key@),
            None => carried_key(*headers) is None,
        },
{
    proof {
        reveal_strlit("Bearer ");
        assert("Bearer "@.len() == 7);
    }
    match &headers.authorization {
        Some(text) => match strip_prefix(text.as_str(), "Bearer ") {
            Some(key) => {
                return Some(key);
            },
            None => {},
        },
        None => {},
    }
    match &headers.x_api_key {
        Some(key) => Some(key.clone()),
        None => None,
    }
}

/// The bearer token takes precedence: where there is one, the other header does not
/// matter.
pub proof fn bearer_takes_precedence(a: KeyHeaders, b: KeyHeaders)
    requires
        a.authorization == b.authorization,
        a.authorization is Some,
        has_prefix(a.authorization->0@, "Bearer "@),
    ensures
        carried_key(a) == carried_key(b),
        carried_key(a) == Some(a.authorization->0@.skip(7)),
{
}

} // verus!
