//! Agent credentials: stored token hashes and the bearer header.
use vstd::prelude::*;
use vstd::utf8::encode_utf8;
use sha2::Digest;
use crate::text::{chars_of, slice_chars, string_of};

verus! {

/// Names the SHA-256 digest of a byte sequence.
pub uninterp spec fn sha256_digest(data: Seq<u8>) -> Seq<u8>;

/// `sha2::Sha256::digest`: the result is the SHA-256 digest of the input, a
/// function of the input alone, and is 32 bytes long.
#[verifier::external_body]
fn sha256(data: &[u8]) -> (r: Vec<u8>)
    ensures
        r@ == sha256_digest(data@),
        r@.len() == 32,
{
    sha2::Sha256::digest(data).to_vec()
}

/// The stored form of an agent or enrollment token: the SHA-256 digest of its
/// UTF-8 bytes.
pub fn token_hash(token: &str) -> (r: Vec<u8>)
    ensures
        r@ == sha256_digest(encode_utf8(token@)),
        r@.len() == 32,
{
    sha256(token.as_bytes())
}

/// Why a request was not authenticated.
#[derive(Debug, Clone, Copy, PartialEq, Eq, Structural)]
pub enum AuthError {
    /// No `Authorization: Bearer <token>` header with a non-empty token.
    MissingBearerToken,
    /// No enrolled, unrevoked agent has this token.
    InvalidOrRevokedToken,
}

/// The token of an `Authorization` header value: what follows `Bearer `, when
/// that is not empty.
pub open spec fn bearer_token(header: Option<Seq<char>>) -> Option<Seq<char>> {
    match header {
        Some(value) => if value.len() > 7 && value.take(7) == "Bearer "@ {
            Some(value.skip(7))
        } else {
            None
        },
        None => None,
    }
}

/// Law: a header `Bearer ` followed by a non-empty token yields that token;
/// a header that does not start with `Bearer ` (exactly that case and one
/// space), a bare `Bearer `, or no header yields none.
pub proof fn bearer_rule(header: Option<Seq<char>>, token: Seq<char>)
    ensures
        token.len() > 0 ==> bearer_token(Some("Bearer "@ + token)) == Some(token),
        bearer_token(Some("Bearer "@)) is None,
        bearer_token(None) is None,
        bearer_token(header) is Some ==> header->0.len() > 7 && header->0.take(7) == "Bearer "@,
{
    reveal_strlit("Bearer ");
    let h = "Bearer "@ + token;
    assert(h.take(7) =~= "Bearer "@);
    assert(h.skip(7) =~= token);
}

/// Extracts the bearer token from the `Authorization` header value, if the
/// header is present and readable as text.
pub fn bearer(authorization: Option<&str>) -> (r: Result<String, AuthError>)
    ensures
        match bearer_token(
            match authorization {
                Some(v) => Some(v@),
                None => None,
            },
        ) {
            Some(token) => r matches Ok(t) && t@ == token,
            None => r == Err::<String, AuthError>(AuthError::MissingBearerToken),
        },
{
    let value = match authorization {
        Some(v) => chars_of(v),
        None => return Err(AuthError::MissingBearerToken),
    };
    let prefix = chars_of("Bearer ");
    proof {
        reveal_strlit("Bearer ");
        assert("Bearer "@.len() == 7);
    }
    if value.len() <= 7 {
        return Err(AuthError::MissingBearerToken);
    }
    let mut i: usize = 0;
    while i < 7
        invariant
            i <= 7,
            value@.len() > 7,
            prefix@ == "Bearer "@,
            prefix@.len() == 7,
            authorization is Some && value@ == authorization->0@,
            forall|j: int| 0 <= j < i ==> value@[j] == prefix@[j],
        decreases 7 - i,
    {
        if value[i] != prefix[i] {
            assert(value@.take(7)[i as int] != "Bearer "@[i as int]);
            return Err(AuthError::MissingBearerToken);
        }
        i = i + 1;
    }
    assert(value@.take(7) =~= "Bearer "@);
    let token = slice_chars(&value, 7, value.len());
    assert(token@ =~= value@.skip(7));
    Ok(string_of(&token))
}

/// The outcome of looking up a token: the agent's node, or refusal.
pub fn authenticated_node(node: Option<u128>) -> (r: Result<u128, AuthError>)
    ensures
        match node {
            Some(n) => r == Ok::<u128, AuthError>(n),
            None => r == Err::<u128, AuthError>(AuthError::InvalidOrRevokedToken),
        },
{
    match node {
        Some(n) => Ok(n),
        None => Err(AuthError::InvalidOrRevokedToken),
    }
}

} // verus!
