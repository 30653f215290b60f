//! The shared-token check: where a request presents its token, and which
//! paths need one.

use vstd::prelude::*;
use crate::text::{has_prefix, same_text, split, split_on, starts_with, strip_prefix};

verus! {

/// Why a request was refused.
#[derive(Clone, Copy, Debug, PartialEq, Eq, Structural)]
pub enum AuthError {
    /// A token was presented and it is not the shared one.
    InvalidToken,
    /// No token was presented.
    TokenRequired,
}

/// The value of the first `token=` pair among `pairs`.
pub open spec fn first_token(pairs: Seq<Seq<char>>) -> Option<Seq<char>>
    decreases pairs.len(),
{
    if pairs.len() == 0 {
        None
    } else if has_prefix(pairs[0], "token="@) {
        Some(pairs[0].skip("token="@.len() as int))
    } else {
        first_token(pairs.drop_first())
    }
}

/// The token in a query string: the value of its first `&`-separated pair
/// whose key is `token`, taken as it stands.
pub open spec fn query_token_of(query: Seq<char>) -> Option<Seq<char>> {
    first_token(split_on(query, '&'))
}

/// The token of an `Authorization` header of the form `Bearer <token>`.
pub open spec fn bearer_token_of(header: Seq<char>) -> Option<Seq<char>> {
    if has_prefix(header, "Bearer "@) {
        Some(header.skip("Bearer "@.len() as int))
    } else {
        None
    }
}

/// The token that a request presents: from its query string first, else
/// from its `Authorization` header.
pub open spec fn presented_token(query: Seq<char>, authorization: Option<Seq<char>>) -> Option<
    Seq<char>,
> {
    match query_token_of(query) {
        Some(t) => Some(t),
        None => match authorization {
            Some(h) => bearer_token_of(h),
            None => None,
        },
    }
}

pub fn query_token(query: &str) -> (r: Option<String>)
    ensures
        match r {
            Some(t) => query_token_of(query@) == Some(t@),
            None => query_token_of(query@) is None,
        },
{
    let pairs = split(query, '&');
    let ghost all = pairs@.map_values(|p: String| p@);
    let mut i: usize = 0;
    proof {
        assert(all.skip(0) =~= all);
    }
    while i < pairs.len()
        invariant
            all == pairs@.map_values(|p: String| p@),
            all == split_on(query@, '&'),
            i <= pairs@.len(),
            first_token(all) == first_token(all.skip(i as int)),
        decreases pairs@.len() - i,
    {
        proof {
            assert(all.skip(i as int)[0] == pairs@[i as int]@);
            assert(all.skip(i as int).drop_first() =~= all.skip(i + 1));
        }
        match strip_prefix(pairs[i].as_str(), "token=") {
            Some(value) => {
                return Some(value);
            },
            None => {},
        }
        i = i + 1;
    }
    proof {
        assert(all.skip(i as int).len() == 0);
    }
    None
}

pub fn bearer_token(header: &str) -> (r: Option<String>)
    ensures
        match r {
            Some(t) => bearer_token_of(header@) == Some(t@),
            None => bearer_token_of(header@) is None,
        },
{
    strip_prefix(header, "Bearer ")
}

pub open spec fn header_view(h: Option<&str>) -> Option<Seq<char>> {
    match h {
        Some(h) => Some(h@),
        None => None,
    }
}

/// The token that a request presents, given its query string and its
/// `Authorization` header, if it has one that is text.
pub fn extract_token(query: &str, authorization: Option<&str>) -> (r: Option<String>)
    ensures
        match r {
            Some(t) => presented_token(query@, header_view(authorization)) == Some(t@),
            None => presented_token(query@, header_view(authorization)) is None,
        },
{
    match query_token(query) {
        Some(t) => Some(t),
        None => match authorization {
            Some(h) => bearer_token(h),
            None => None,
        },
    }
}

/// Whether a presented token is the shared secret.
pub fn verify_token(expected: &str, token: &str) -> (r: bool)
    ensures
        r == (expected@ == token@),
{
    same_text(expected, token)
}

/// Admits a request that presents the shared token.
pub fn check_auth(token: Option<&str>, expected: &str) -> (r: Result<(), AuthError>)
    ensures
        match token {
            Some(t) => if t@ == expected@ {
                r is Ok
            } else {
                r == Err::<(), AuthError>(AuthError::InvalidToken)
            },
            None => r == Err::<(), AuthError>(AuthError::TokenRequired),
        },
{
    match token {
        Some(t) => if verify_token(expected, t) {
            Ok(())
        } else {
            Err(AuthError::InvalidToken)
        },
        None => Err(AuthError::TokenRequired),
    }
}

/// Whether a path is guarded: the API, but for the token check itself, and
/// the terminal connection; the static files are open.
pub open spec fn guarded(path: Seq<char>) -> bool {
    (has_prefix(path, "/api/"@) && path != "/api/auth/check"@) || path == "/ws"@
}

pub fn requires_auth(path: &str) -> (r: bool)
    ensures
        r == guarded(path@),
{
    if starts_with(path, "/api/") {
        if same_text(path, "/api/auth/check") {
            proof {
                reveal_strlit("/api/auth/check");
                reveal_strlit("/ws");
                assert(path@.len() != "/ws"@.len());
            }
            return false;
        }
        return true;
    }
    if same_text(path, "/ws") {
        return true;
    }
    false
}

/// Admits a request for `path`: an open path always, a guarded one only with
/// the shared token.
pub fn verify_request(path: &str, token: Option<&str>, expected: &str) -> (r: Result<(), AuthError>)
    ensures
        !guarded(path@) ==> r is Ok,
        guarded(path@) ==> match token {
            Some(t) => if t@ == expected@ {
                r is Ok
            } else {
                r == Err::<(), AuthError>(AuthError::InvalidToken)
            },
            None => r == Err::<(), AuthError>(AuthError::TokenRequired),
        },
{
    if !requires_auth(path) {
        return Ok(());
    }
    check_auth(token, expected)
}

} // verus!
