//! Reading identity claims out of an OAuth token response.
//!
//! The identity token is a dot-separated JWT; its second part is base64
//! decoded and the subject, e-mail and display name are read out of the
//! claims document. Signature verification is not performed here.

use crate::strutil::{split_chars, split_spec, to_chars};
use crate::trusted::{b64_decode, b64_of, json_ptr_string, json_string_at, json_wf, utf8_of,
    utf8_string};
use vstd::prelude::*;

verus! {

/// The identity claims carried by a token.
#[derive(Debug)]
pub struct Claims {
    /// The subject identifier.
    pub sub: String,
    /// The account's e-mail address.
    pub email: String,
    /// The account's display name.
    pub name: String,
}

/// The fields of an OAuth implicit-flow token response.
pub struct AuthResponse {
    pub state: String,
    pub access_token: String,
    pub token_type: String,
    pub expires_in: u32,
    pub scope: String,
    pub id_token: String,
    pub authuser: i32,
    pub hd: String,
    pub prompt: String,
}

/// Why a token could not be read.
#[derive(Debug, PartialEq, Eq)]
pub enum AuthError {
    /// The token does not have a claims part.
    MalformedToken,
    /// The claims part is not base64, not UTF-8, not JSON, or misses a
    /// required claim.
    BadClaims,
}

/// The claims denoted by a token: the second dot-separated part, base64
/// and UTF-8 decoded, with `sub`, `email` and `name` read out of the JSON
/// document.
pub open spec fn claims_spec(token: Seq<char>) -> Result<
    (Seq<char>, Seq<char>, Seq<char>),
    AuthError,
> {
    let parts = split_spec(token, seq!['.']);
    if parts.len() < 2 {
        Result::Err(AuthError::MalformedToken)
    } else {
        match b64_of(parts[1]) {
            Option::None => Result::Err(AuthError::BadClaims),
            Option::Some(bytes) => match utf8_of(bytes) {
                Option::None => Result::Err(AuthError::BadClaims),
                Option::Some(doc) => if !json_wf(doc) {
                    Result::Err(AuthError::BadClaims)
                } else {
                    match (
                        json_ptr_string(doc, "/sub"@),
                        json_ptr_string(doc, "/email"@),
                        json_ptr_string(doc, "/name"@),
                    ) {
                        (Option::Some(s), Option::Some(e), Option::Some(n)) => Result::Ok(
                            (s, e, n),
                        ),
                        _ => Result::Err(AuthError::BadClaims),
                    }
                },
            },
        }
    }
}

/// Decodes the claims part of a dot-separated identity token.
fn decode_jwt(token: &str) -> (r: Result<Claims, AuthError>)
    ensures
        match r {
            Ok(c) => claims_spec(token@) == Result::<
                (Seq<char>, Seq<char>, Seq<char>),
                AuthError,
            >::Ok((c.sub@, c.email@, c.name@)),
            Err(e) => claims_spec(token@) == Result::<
                (Seq<char>, Seq<char>, Seq<char>),
                AuthError,
            >::Err(e),
        },
{
    let tc = to_chars(token);
    let mut dot: Vec<char> = Vec::new();
    dot.push('.');
    proof {
        assert(dot@ =~= seq!['.']);
    }
    let parts = split_chars(&tc, &dot);
    if parts.len() < 2 {
        return Err(AuthError::MalformedToken);
    }
    proof {
        assert(parts@[1].deep_view() == parts.deep_view()[1]);
        assert(parts@[1].deep_view() =~= parts@[1]@);
    }
    let claims64 = crate::trusted::chars_to_string(&parts[1]);
    let bytes = match b64_decode(claims64.as_str()) {
        None => {
            return Err(AuthError::BadClaims);
        },
        Some(b) => b,
    };
    proof {
        assert(bytes.deep_view() =~= bytes@);
    }
    let doc = match utf8_string(bytes) {
        None => {
            return Err(AuthError::BadClaims);
        },
        Some(d) => d,
    };
    let sub = json_string_at(doc.as_str(), "/sub");
    let email = json_string_at(doc.as_str(), "/email");
    let name = json_string_at(doc.as_str(), "/name");
    match (sub, email, name) {
        (Ok(Some(s)), Ok(Some(e)), Ok(Some(n))) => Ok(Claims { sub: s, email: e, name: n }),
        _ => Err(AuthError::BadClaims),
    }
}

/// Reads the identity claims out of a token response.
pub fn get_claims(auth_response: &AuthResponse) -> (r: Result<Claims, AuthError>)
    ensures
        match r {
            Ok(c) => claims_spec(auth_response.id_token@) == Result::<
                (Seq<char>, Seq<char>, Seq<char>),
                AuthError,
            >::Ok((c.sub@, c.email@, c.name@)),
            Err(e) => claims_spec(auth_response.id_token@) == Result::<
                (Seq<char>, Seq<char>, Seq<char>),
                AuthError,
            >::Err(e),
        },
{
    let token = auth_response.id_token.clone();
    decode_jwt(token.as_str())
}

/// Ends the session; nothing is retained, so nothing can fail.
pub fn logout() -> (r: Result<(), AuthError>)
    ensures
        r is Ok,
{
    Ok(())
}

} // verus!
