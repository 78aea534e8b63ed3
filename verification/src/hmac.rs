//! The signing primitive behind the credential issuer and resolver.
//!
//! The tag of a message under a key is named by the uninterpreted function
//! `hmac_tag`; the two trusted wrappers below relate the outside calls to
//! that name. Secret comparison happens inside the outside crate, in
//! constant time, never in this crate's code.

use vstd::prelude::*;

verus! {

/// The base64url-encoded HMAC-SHA256 tag of `msg` under `key`: a function
/// of the key and the message alone.
pub uninterp spec fn hmac_tag(key: Seq<u8>, msg: Seq<u8>) -> Seq<u8>;

/// Relies on `jsonwebtoken::crypto::sign` with `Algorithm::HS256`: for an
/// HMAC key it cannot fail and returns the base64url form of the
/// HMAC-SHA256 tag of the message, a function of key and message alone.
#[verifier::external_body]
pub(crate) fn hmac_sign(key: &[u8], msg: &[u8]) -> (r: Vec<u8>)
    ensures
        r@ == hmac_tag(key@, msg@),
{
    jsonwebtoken::crypto::sign(
        msg,
        &jsonwebtoken::EncodingKey::from_secret(key),
        jsonwebtoken::Algorithm::HS256,
    )
        .unwrap()
        .into_bytes()
}

/// Relies on `jsonwebtoken::crypto::verify` with `Algorithm::HS256`: it
/// re-signs the message under the key and compares against `sig` in
/// constant time, so it returns true exactly when `sig` is the tag of
/// `msg` under `key`. A signature that is not UTF-8 cannot equal the tag,
/// which is ASCII base64url.
#[verifier::external_body]
pub(crate) fn hmac_verify(sig: &[u8], msg: &[u8], key: &[u8]) -> (r: bool)
    ensures
        r == (sig@ == hmac_tag(key@, msg@)),
{
    match core::str::from_utf8(sig) {
        Ok(s) => jsonwebtoken::crypto::verify(
            s,
            msg,
            &jsonwebtoken::DecodingKey::from_secret(key),
            jsonwebtoken::Algorithm::HS256,
        ).unwrap_or(false),
        Err(_) => false,
    }
}

} // verus!
