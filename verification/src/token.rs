//! Credential issuer and resolver.
//!
//! A credential is a signed token, `header.claims.tag`: two base64url
//! parts over the canonical JSON forms, and the HMAC tag of everything
//! before it under the server key. The resolver inverts the issuer and
//! sorts every failure into the missing / malformed / invalid taxonomy.
//!
//! The two lifetime classes share this one claim set; a token's class shows
//! in its lifetime and in where it travels — the bearer header for access
//! credentials, the HTTP-only cookie for refresh credentials.

use vstd::prelude::*;

verus! {

use crate::b64::b64_decode;
use crate::b64::b64_decode_bytes;
use crate::b64::b64_encode;
use crate::b64::b64_encode_bytes;
use crate::b64::lemma_b64_encode_no_dot;
use crate::b64::lemma_b64_round_trip;
use crate::bytes::ascii_bytes;
use crate::bytes::ascii_str_bytes;
use crate::bytes::bytes_at;
use crate::bytes::copy_range;
use crate::bytes::find_byte;
use crate::bytes::find_byte_from;
use crate::bytes::has_bytes_at;
use crate::bytes::lemma_find_byte_at;
use crate::bytes::push_bytes;
use crate::claims::claims_to_json;
use crate::claims::lemma_claims_round_trip;
use crate::claims::parse_claims;
use crate::claims::parse_claims_json;
use crate::claims::ser_claims;
use crate::ctx::Ctx;
use crate::hmac::hmac_sign;
use crate::hmac::hmac_tag;
use crate::hmac::hmac_verify;
use crate::role::Role;

/// How a transport artifact failed to resolve.
#[derive(Clone, Debug)]
pub enum CtxExtError {
    /// No artifact was presented: the request is anonymous, not an error.
    TokenNotInCookie,
    /// The artifact is present but not a well-formed token.
    TokenMalformed,
    /// The token is well-formed but its signature is wrong or it expired.
    TokenInvalid,
    SessionNotFound,
    SessionAccessError,
    CannotSetTokenCookie,
    CtxNotInRequestExt,
    CtxCreateFail(String),
}

/// The resolved claim values: user id, second-factor flag, expiry, roles,
/// issue time.
pub type ResolvedClaims = (u128, bool, u64, Seq<Role>, u64);

/// The fixed token header, canonical JSON.
pub open spec fn header_json() -> Seq<u8> {
    ascii_bytes("{\"typ\":\"JWT\",\"alg\":\"HS256\"}"@)
}

/// The encoded header part of every issued token.
pub open spec fn header_b64() -> Seq<u8> {
    b64_encode(header_json())
}

/// The signed part of a token for context `c`: encoded header, separator,
/// encoded claims.
pub open spec fn signing_input(c: Ctx) -> Seq<u8> {
    header_b64() + seq![46u8] + b64_encode(ser_claims(c))
}

/// The token issued for context `c` under `key`.
pub open spec fn jwt_bytes(c: Ctx, key: Seq<u8>) -> Seq<u8> {
    signing_input(c) + seq![46u8] + hmac_tag(key, signing_input(c))
}

/// Resolution of a raw token under `key` at time `now`. In order: the
/// token must split at two separators, carry the canonical header, a
/// payload that decodes and parses — else malformed; its signature must be
/// the tag of the signed part and its expiry must not lie before `now` —
/// else invalid.
pub open spec fn resolve_token(token: Seq<u8>, key: Seq<u8>, now: u64) -> Result<
    ResolvedClaims,
    CtxExtError,
> {
    match find_byte(token, 46) {
        None => Err(CtxExtError::TokenMalformed),
        Some(d1) => match find_byte(token.skip(d1 + 1), 46) {
            None => Err(CtxExtError::TokenMalformed),
            Some(d2rel) => {
                let d2 = d1 + 1 + d2rel;
                if token.take(d1) != header_b64() {
                    Err(CtxExtError::TokenMalformed)
                } else {
                    match b64_decode(token.subrange(d1 + 1, d2)) {
                        None => Err(CtxExtError::TokenMalformed),
                        Some(claims_bytes) => match parse_claims(claims_bytes) {
                            None => Err(CtxExtError::TokenMalformed),
                            Some(t) => if token.skip(d2 + 1) != hmac_tag(key, token.take(d2)) {
                                Err(CtxExtError::TokenInvalid)
                            } else if t.2 < now {
                                Err(CtxExtError::TokenInvalid)
                            } else {
                                Ok(t)
                            },
                        },
                    }
                }
            },
        },
    }
}

/// The canonical header bytes.
fn header_json_vec() -> (r: Vec<u8>)
    ensures
        r@ == header_json(),
{
    proof {
        reveal_strlit("{\"typ\":\"JWT\",\"alg\":\"HS256\"}");
    }
    ascii_str_bytes("{\"typ\":\"JWT\",\"alg\":\"HS256\"}")
}

impl Ctx {
    /// Issues the signed token that carries this context.
    pub fn to_jwt(&self, key: &[u8]) -> (r: Vec<u8>)
        ensures
            r@ == jwt_bytes(*self, key@),
    {
        let hj = header_json_vec();
        let mut msg = b64_encode_bytes(hj.as_slice());
        msg.push(46);
        let cj = claims_to_json(self);
        let cb = b64_encode_bytes(cj.as_slice());
        push_bytes(&mut msg, cb.as_slice());
        proof {
            assert(msg@ =~= signing_input(*self));
        }
        let tag = hmac_sign(key, msg.as_slice());
        let mut tok = msg;
        tok.push(46);
        push_bytes(&mut tok, tag.as_slice());
        proof {
            assert(tok@ =~= jwt_bytes(*self, key@));
        }
        tok
    }
}

/// Resolves a raw token under `key` at time `now`.
pub fn resolve(token: &[u8], key: &[u8], now: u64) -> (r: Result<Ctx, CtxExtError>)
    ensures
        match resolve_token(token@, key@, now) {
            Ok(t) => r matches Ok(c) && c.user_id == t.0 && c.valid_totp == t.1 && c.exp == t.2
                && c.roles@ == t.3 && c.iat == t.4,
            Err(e) => r matches Err(e2) && e2 == e,
        },
{
    proof {
        assert(token@.skip(0) =~= token@);
    }
    let n = token.len();
    let d1 = match find_byte_from(token, 0, 46) {
        Some(d) => d,
        None => {
            return Err(CtxExtError::TokenMalformed);
        },
    };
    let d2 = match find_byte_from(token, d1 + 1, 46) {
        Some(d) => d,
        None => {
            return Err(CtxExtError::TokenMalformed);
        },
    };
    let hj = header_json_vec();
    let hb = b64_encode_bytes(hj.as_slice());
    let ghost spec_d1 = find_byte(token@, 46).unwrap();
    let ghost spec_d2 = spec_d1 + 1 + find_byte(token@.skip(spec_d1 + 1), 46).unwrap();
    proof {
        assert(d1 == spec_d1);
        assert(d2 == spec_d2);
    }
    if !(d1 == hb.len() && has_bytes_at(token, 0, hb.as_slice())) {
        proof {
            if token@.take(d1 as int) == header_b64() {
                assert(token@.take(d1 as int).len() == d1);
                assert(bytes_at(token@, 0, hb@)) by {
                    assert(token@.subrange(0, hb@.len() as int) =~= token@.take(d1 as int));
                }
            }
        }
        return Err(CtxExtError::TokenMalformed);
    }
    proof {
        assert(token@.take(d1 as int) =~= token@.subrange(0, hb@.len() as int));
    }
    let payload = copy_range(token, d1 + 1, d2);
    let claims_bytes = match b64_decode_bytes(payload.as_slice()) {
        Some(v) => v,
        None => {
            return Err(CtxExtError::TokenMalformed);
        },
    };
    let ctx = match parse_claims_json(claims_bytes.as_slice()) {
        Some(c) => c,
        None => {
            return Err(CtxExtError::TokenMalformed);
        },
    };
    let msg = copy_range(token, 0, d2);
    let sig = copy_range(token, d2 + 1, n);
    proof {
        assert(msg@ =~= token@.take(d2 as int));
        assert(sig@ =~= token@.skip(d2 as int + 1));
    }
    if !hmac_verify(sig.as_slice(), msg.as_slice(), key) {
        return Err(CtxExtError::TokenInvalid);
    }
    if ctx.exp < now {
        return Err(CtxExtError::TokenInvalid);
    }
    Ok(ctx)
}

impl Ctx {
    /// Resolves a raw token, folding every failure into a decode error.
    pub fn from_jwt(token: &[u8], key: &[u8], now: u64) -> (r: Result<
        Ctx,
        crate::error::CtxError,
    >)
        ensures
            match resolve_token(token@, key@, now) {
                Ok(t) => r matches Ok(c) && c.user_id == t.0 && c.valid_totp == t.1 && c.exp
                    == t.2 && c.roles@ == t.3 && c.iat == t.4,
                Err(e) => r == Err::<Ctx, crate::error::CtxError>(
                    crate::error::CtxError::JwtDecodeError,
                ),
            },
    {
        match resolve(token, key, now) {
            Ok(c) => Ok(c),
            Err(_) => Err(crate::error::CtxError::JwtDecodeError),
        }
    }
}

/// The bearer token inside an authorization header value: the first
/// space-separated part must read `Bearer`, the token is the second.
pub open spec fn bearer_token(v: Seq<u8>) -> Option<Seq<u8>> {
    match find_byte(v, 32) {
        None => None,
        Some(sp) => if v.take(sp) == ascii_bytes("Bearer"@) {
            let rest = v.skip(sp + 1);
            match find_byte(rest, 32) {
                None => Some(rest),
                Some(sp2) => Some(rest.take(sp2)),
            }
        } else {
            None
        },
    }
}

/// Resolution of a request's authorization header: an absent header is the
/// anonymous case, a header without a bearer token is malformed, and the
/// token itself resolves under `resolve_token`.
pub open spec fn ctx_resolve_spec(h: Option<Seq<u8>>, key: Seq<u8>, now: u64) -> Result<
    ResolvedClaims,
    CtxExtError,
> {
    match h {
        None => Err(CtxExtError::TokenNotInCookie),
        Some(v) => match bearer_token(v) {
            None => Err(CtxExtError::TokenMalformed),
            Some(tok) => resolve_token(tok, key, now),
        },
    }
}

/// Resolves the authorization header of a request.
pub fn ctx_resolve(header: Option<&[u8]>, key: &[u8], now: u64) -> (r: Result<Ctx, CtxExtError>)
    ensures
        match ctx_resolve_spec(
            match header {
                Some(v) => Some(v@),
                None => None,
            },
            key@,
            now,
        ) {
            Ok(t) => r matches Ok(c) && c.user_id == t.0 && c.valid_totp == t.1 && c.exp == t.2
                && c.roles@ == t.3 && c.iat == t.4,
            Err(e) => r matches Err(e2) && e2 == e,
        },
{
    let v = match header {
        Some(v) => v,
        None => {
            return Err(CtxExtError::TokenNotInCookie);
        },
    };
    proof {
        assert(v@.skip(0) =~= v@);
        reveal_strlit("Bearer");
    }
    let n = v.len();
    let sp = match find_byte_from(v, 0, 32) {
        Some(d) => d,
        None => {
            return Err(CtxExtError::TokenMalformed);
        },
    };
    let bv = ascii_str_bytes("Bearer");
    if !(sp == bv.len() && has_bytes_at(v, 0, bv.as_slice())) {
        proof {
            if v@.take(sp as int) == ascii_bytes("Bearer"@) {
                assert(v@.take(sp as int).len() == sp);
                assert(bytes_at(v@, 0, bv@)) by {
                    assert(v@.subrange(0, bv@.len() as int) =~= v@.take(sp as int));
                }
            }
        }
        return Err(CtxExtError::TokenMalformed);
    }
    proof {
        assert(v@.take(sp as int) =~= v@.subrange(0, bv@.len() as int));
    }
    let ghost rest = v@.skip(sp + 1);
    let end: usize = match find_byte_from(v, sp + 1, 32) {
        Some(d) => d,
        None => n,
    };
    let tok = copy_range(v, sp + 1, end);
    proof {
        match find_byte(rest, 32) {
            None => {
                assert(tok@ =~= rest);
            },
            Some(sp2) => {
                assert(tok@ =~= rest.take(sp2));
            },
        }
    }
    resolve(tok.as_slice(), key, now)
}

/// Whether the resolution middleware scrubs the transport artifact: yes for
/// every failure except an absent credential, which stays untouched so that
/// anonymous access remains possible.
pub fn should_scrub(r: &Result<Ctx, CtxExtError>) -> (b: bool)
    ensures
        b == (r is Err && !(r matches Err(CtxExtError::TokenNotInCookie))),
{
    match r {
        Ok(_) => false,
        Err(CtxExtError::TokenNotInCookie) => false,
        Err(_) => true,
    }
}

/// Resolution of a token just issued for `c` under `key`, resolved with
/// `vkey`: well-formed by construction, so it is invalid exactly when the
/// verifying key's tag differs or the context has expired, and otherwise
/// yields the context's claims unchanged.
pub proof fn lemma_resolve_issued(c: Ctx, key: Seq<u8>, vkey: Seq<u8>, now: u64)
    ensures
        resolve_token(jwt_bytes(c, key), vkey, now) == (if hmac_tag(vkey, signing_input(c))
            != hmac_tag(key, signing_input(c)) {
            Err::<ResolvedClaims, CtxExtError>(CtxExtError::TokenInvalid)
        } else if c.exp < now {
            Err::<ResolvedClaims, CtxExtError>(CtxExtError::TokenInvalid)
        } else {
            Ok::<ResolvedClaims, CtxExtError>((c.user_id, c.valid_totp, c.exp, c.roles@, c.iat))
        }),
{
    let hb = header_b64();
    let cb = b64_encode(ser_claims(c));
    let si = signing_input(c);
    let tag = hmac_tag(key, si);
    let tok = jwt_bytes(c, key);
    lemma_b64_encode_no_dot(header_json());
    lemma_b64_encode_no_dot(ser_claims(c));
    let d1 = hb.len() as int;
    assert(tok =~= hb + seq![46u8] + cb + seq![46u8] + tag);
    assert forall|j: int| 0 <= j < d1 implies tok[j] != 46u8 by {
        assert(tok[j] == hb[j]);
    }
    assert(tok[d1] == 46u8);
    lemma_find_byte_at(tok, 46u8, d1);
    let suf = tok.skip(d1 + 1);
    assert(suf =~= cb + seq![46u8] + tag);
    let d2rel = cb.len() as int;
    assert forall|j: int| 0 <= j < d2rel implies suf[j] != 46u8 by {
        assert(suf[j] == cb[j]);
    }
    assert(suf[d2rel] == 46u8);
    lemma_find_byte_at(suf, 46u8, d2rel);
    let d2 = d1 + 1 + d2rel;
    assert(tok.take(d1) =~= hb);
    assert(tok.subrange(d1 + 1, d2) =~= cb);
    lemma_b64_round_trip(ser_claims(c));
    lemma_claims_round_trip(c);
    assert(tok.take(d2) =~= si);
    assert(tok.skip(d2 + 1) =~= tag);
}

/// A resolved context is never expired: resolution only succeeds when the
/// token's expiry is at or after `now`, whatever the token or key.
pub proof fn lemma_resolve_ok_not_expired(token: Seq<u8>, key: Seq<u8>, now: u64)
    ensures
        resolve_token(token, key, now) matches Ok(t) ==> t.2 >= now,
{
}

/// Issuing and immediately resolving a credential returns the identity,
/// roles and second-factor state it was issued for.
pub proof fn lemma_issue_resolve_round_trip(c: Ctx, key: Seq<u8>, now: u64)
    requires
        now <= c.exp,
    ensures
        resolve_token(jwt_bytes(c, key), key, now) == Ok::<ResolvedClaims, CtxExtError>(
            (c.user_id, c.valid_totp, c.exp, c.roles@, c.iat),
        ),
{
    lemma_resolve_issued(c, key, key, now);
}

/// A credential whose expiry lies in the past resolves to the invalid
/// case, never to a context, even under the key that signed it.
pub proof fn lemma_expired_resolves_invalid(c: Ctx, key: Seq<u8>, now: u64)
    requires
        c.exp < now,
    ensures
        resolve_token(jwt_bytes(c, key), key, now) == Err::<ResolvedClaims, CtxExtError>(
            CtxExtError::TokenInvalid,
        ),
{
    lemma_resolve_issued(c, key, key, now);
}

/// An expired credential resolves to the invalid case under every key:
/// either the verifying key's tag differs, or the expiry check fires.
pub proof fn lemma_expired_never_resolves(c: Ctx, key: Seq<u8>, vkey: Seq<u8>, now: u64)
    requires
        c.exp < now,
    ensures
        resolve_token(jwt_bytes(c, key), vkey, now) == Err::<ResolvedClaims, CtxExtError>(
            CtxExtError::TokenInvalid,
        ),
{
    lemma_resolve_issued(c, key, vkey, now);
}

/// A credential signed under one key resolves to the invalid case under
/// any key whose tag for the signed part differs.
pub proof fn lemma_wrong_key_resolves_invalid(c: Ctx, key: Seq<u8>, vkey: Seq<u8>, now: u64)
    requires
        hmac_tag(vkey, signing_input(c)) != hmac_tag(key, signing_input(c)),
    ensures
        resolve_token(jwt_bytes(c, key), vkey, now) == Err::<ResolvedClaims, CtxExtError>(
            CtxExtError::TokenInvalid,
        ),
{
    lemma_resolve_issued(c, key, vkey, now);
}

} // verus!
