//! Handler cores: the decisions of the authentication endpoints, from
//! plain values to plain values.
//!
//! The surrounding I/O — the user lookup, the cookie transport, the
//! storage transaction — stays outside and hands these functions what they
//! need: the stored record, the raw cookie value, the clock, the key.

use vstd::prelude::*;

verus! {

use crate::ctx::AUTH_TTL_SECS;
use crate::ctx::Ctx;
use crate::ctx::REFRESH_TTL_SECS;
use crate::error::AuthError;
use crate::error::GenericAuthError;
use crate::password::Credentials;
use crate::password::phc_verifies;
use crate::password::validate_credentials;
use crate::token::jwt_bytes;
use crate::token::resolve;
use crate::token::resolve_token;
use crate::totp::TOTP_DIGITS;
use crate::totp::TOTP_SKEW_STEPS;
use crate::totp::TOTP_STEP_SECS;
use crate::totp::base32_nopad;
use crate::totp::totp_accepts;
use crate::totp::totp_provisioning_url;
use crate::totp::totp_secret_base32;
use crate::totp::totp_url_of;
use crate::totp::totp_verify;
use vstd::utf8::encode_utf8;

/// The context `c` with the given second-factor flag and lifetimes.
pub open spec fn with_lifetimes(c: Ctx, valid_totp: bool, iat: u64, exp: u64) -> Ctx {
    Ctx { user_id: c.user_id, roles: c.roles, valid_totp, exp, iat }
}

/// A signup request as submitted by the form: the account's facts and the
/// note shown to the approving administrator.
#[derive(Debug)]
pub struct UserSignup {
    pub full_name: String,
    pub username: String,
    pub email: String,
    pub password: String,
    pub request_text: String,
}

/// The body of a second-factor submission: the candidate code.
#[derive(Debug)]
pub struct TotpRequest {
    pub totp: String,
}

/// What a successful login returns: a short-lived access credential, a
/// long-lived refresh credential, and the refresh-stamped context.
pub struct LoginTokens {
    pub auth_jwt: Vec<u8>,
    pub refresh_jwt: Vec<u8>,
    pub ctx: Ctx,
}

/// The login decision. Succeeds exactly when the stored record exists and
/// the password verifies against its hash; then the access credential
/// carries the stored identity for `AUTH_TTL_SECS` from `now` and the
/// refresh credential the same identity for `REFRESH_TTL_SECS`.
pub fn login_core(
    lookup: Option<(Ctx, String)>,
    credentials: &Credentials,
    key: &[u8],
    now: u64,
) -> (r: Result<LoginTokens, AuthError>)
    requires
        now + REFRESH_TTL_SECS <= u64::MAX,
    ensures
        match lookup {
            Some(stored) => {
                if phc_verifies(stored.1@, encode_utf8(credentials.password@)) {
                    r matches Ok(t) && t.auth_jwt@ == jwt_bytes(
                        with_lifetimes(stored.0, stored.0.valid_totp, now, (now
                            + AUTH_TTL_SECS) as u64),
                        key@,
                    ) && t.refresh_jwt@ == jwt_bytes(
                        with_lifetimes(stored.0, stored.0.valid_totp, now, (now
                            + REFRESH_TTL_SECS) as u64),
                        key@,
                    ) && t.ctx.user_id == stored.0.user_id && t.ctx.roles@ == stored.0.roles@
                        && t.ctx.valid_totp == stored.0.valid_totp && t.ctx.iat == now && t.ctx.exp
                        == now + REFRESH_TTL_SECS
                } else {
                    r matches Err(e) && e == AuthError::InvalidCredentials
                }
            },
            None => r matches Err(e) && e == AuthError::InvalidCredentials,
        },
{
    let user_ctx = match validate_credentials(lookup, credentials) {
        Ok(c) => c,
        Err(e) => {
            return Err(e);
        },
    };
    let mut auth_ctx = user_ctx.dup();
    auth_ctx.as_auth(now);
    let auth_jwt = auth_ctx.to_jwt(key);
    let mut refresh_ctx = user_ctx;
    refresh_ctx.as_refresh(now);
    let refresh_jwt = refresh_ctx.to_jwt(key);
    proof {
        if lookup is Some {
            let stored = lookup.unwrap();
            assert(crate::claims::ser_claims(auth_ctx) == crate::claims::ser_claims(
                with_lifetimes(stored.0, stored.0.valid_totp, now, (now + AUTH_TTL_SECS) as u64),
            ));
            assert(crate::claims::ser_claims(refresh_ctx) == crate::claims::ser_claims(
                with_lifetimes(stored.0, stored.0.valid_totp, now, (now + REFRESH_TTL_SECS) as u64),
            ));
        }
    }
    Ok(LoginTokens { auth_jwt, refresh_jwt, ctx: refresh_ctx })
}

/// The refresh decision. An absent cookie is a missing credential; a
/// cookie that does not resolve — expired ones included — is an invalid
/// credential, and no access credential is minted. A resolving cookie
/// yields a fresh access credential for the resolved identity, issued at
/// `now` for `AUTH_TTL_SECS`, together with its context.
pub fn refresh_core(cookie: Option<&[u8]>, key: &[u8], now: u64) -> (r: Result<
    (Vec<u8>, Ctx),
    GenericAuthError,
>)
    requires
        now + AUTH_TTL_SECS <= u64::MAX,
    ensures
        match cookie {
            None => r matches Err(e) && e == GenericAuthError::GenericAuthError(
                AuthError::MissingCredentials,
            ),
            Some(v) => match resolve_token(v@, key@, now) {
                Err(_) => r matches Err(e) && e == GenericAuthError::GenericAuthError(
                    AuthError::InvalidCredentials,
                ),
                Ok(t) => r matches Ok(p) && p.1.user_id == t.0 && p.1.valid_totp == t.1
                    && p.1.roles@ == t.3 && p.1.iat == now && p.1.exp == now + AUTH_TTL_SECS
                    && p.0@ == jwt_bytes(p.1, key@),
            },
        },
{
    let v = match cookie {
        Some(v) => v,
        None => {
            return Err(GenericAuthError::GenericAuthError(AuthError::MissingCredentials));
        },
    };
    let mut ctx = match resolve(v, key, now) {
        Ok(c) => c,
        Err(_) => {
            return Err(GenericAuthError::GenericAuthError(AuthError::InvalidCredentials));
        },
    };
    ctx.as_auth(now);
    let auth_jwt = ctx.to_jwt(key);
    Ok((auth_jwt, ctx))
}

/// The enrollment decision: a fresh secret forces the second factor back
/// to "not yet satisfied" for the refresh lineage. Returns the refresh
/// credential carrying `valid_totp == false`, the provisioning URL and the
/// base32 secret for manual entry.
pub fn totp_regenerate_core(
    ctx: &Ctx,
    secret: &[u8],
    app_name: &str,
    key: &[u8],
    now: u64,
) -> (r: (Vec<u8>, String, String))
    requires
        16 <= secret@.len(),
        now + REFRESH_TTL_SECS <= u64::MAX,
        forall|i: int| 0 <= i < app_name@.len() ==> app_name@[i] != ':',
    ensures
        r.0@ == jwt_bytes(with_lifetimes(*ctx, false, now, (now + REFRESH_TTL_SECS) as u64), key@),
        r.1@ == totp_url_of(secret@, TOTP_DIGITS, TOTP_STEP_SECS, app_name@, app_name@),
        r.2@ == base32_nopad(secret@),
{
    let mut c = ctx.dup();
    c.as_refresh(now);
    c.with_valid_totp(false);
    let refresh_jwt = c.to_jwt(key);
    proof {
        assert(crate::claims::ser_claims(c) == crate::claims::ser_claims(
            with_lifetimes(*ctx, false, now, (now + REFRESH_TTL_SECS) as u64),
        ));
    }
    let url = totp_provisioning_url(secret, app_name);
    let b32 = totp_secret_base32(secret);
    (refresh_jwt, url, b32)
}

/// The enrollment-validation decision. With no pending secret, or a code
/// that is not accepted for it at `now`, nothing is issued. An accepted
/// code proves the second factor: both fresh credentials carry
/// `valid_totp == true`, the refresh one for `REFRESH_TTL_SECS`, the
/// access one for `AUTH_TTL_SECS`.
pub fn totp_validate_core(
    ctx: &Ctx,
    pending_secret: Option<&[u8]>,
    code: &str,
    key: &[u8],
    now: u64,
) -> (r: Option<(Vec<u8>, Vec<u8>, Ctx)>)
    requires
        pending_secret matches Some(s) ==> 16 <= s@.len(),
        TOTP_STEP_SECS <= now <= 0x7FFFFFFFFFFFFFFF,
        now + REFRESH_TTL_SECS <= u64::MAX,
    ensures
        match pending_secret {
            None => r is None,
            Some(s) => {
                if totp_accepts(s@, TOTP_DIGITS, TOTP_SKEW_STEPS, TOTP_STEP_SECS, code@, now) {
                    r matches Some(t) && t.0@ == jwt_bytes(
                        with_lifetimes(*ctx, true, now, (now + REFRESH_TTL_SECS) as u64),
                        key@,
                    ) && t.1@ == jwt_bytes(
                        with_lifetimes(*ctx, true, now, (now + AUTH_TTL_SECS) as u64),
                        key@,
                    ) && t.2.user_id == ctx.user_id && t.2.roles@ == ctx.roles@ && t.2.valid_totp
                        == true && t.2.iat == now && t.2.exp == now + AUTH_TTL_SECS
                } else {
                    r is None
                }
            },
        },
{
    let secret = match pending_secret {
        Some(s) => s,
        None => {
            return None;
        },
    };
    if !totp_verify(secret, code, now) {
        return None;
    }
    let mut c = ctx.dup();
    c.as_refresh(now);
    c.with_valid_totp(true);
    let refresh_jwt = c.to_jwt(key);
    proof {
        assert(crate::claims::ser_claims(c) == crate::claims::ser_claims(
            with_lifetimes(*ctx, true, now, (now + REFRESH_TTL_SECS) as u64),
        ));
    }
    c.as_auth(now);
    let auth_jwt = c.to_jwt(key);
    proof {
        assert(crate::claims::ser_claims(c) == crate::claims::ser_claims(
            with_lifetimes(*ctx, true, now, (now + AUTH_TTL_SECS) as u64),
        ));
    }
    Some((refresh_jwt, auth_jwt, c))
}

/// The re-verification decision, for a standing refresh credential. The
/// cookie must be present and resolve; an accepted code re-issues the same
/// credential — identity, roles and lifetimes unchanged — with the second
/// factor marked satisfied; a rejected code issues nothing.
pub fn totp_post_core(
    cookie: Option<&[u8]>,
    secret: &[u8],
    code: &str,
    key: &[u8],
    now: u64,
) -> (r: Result<Option<(Vec<u8>, Ctx)>, GenericAuthError>)
    requires
        16 <= secret@.len(),
        TOTP_STEP_SECS <= now <= 0x7FFFFFFFFFFFFFFF,
    ensures
        match cookie {
            None => r matches Err(e) && e == GenericAuthError::GenericAuthError(
                AuthError::MissingCredentials,
            ),
            Some(v) => match resolve_token(v@, key@, now) {
                Err(_) => r matches Err(e) && e == GenericAuthError::GenericAuthError(
                    AuthError::InvalidCredentials,
                ),
                Ok(t) => {
                    if totp_accepts(
                        secret@,
                        TOTP_DIGITS,
                        TOTP_SKEW_STEPS,
                        TOTP_STEP_SECS,
                        code@,
                        now,
                    ) {
                        r matches Ok(o) && o matches Some(p) && p.1.user_id == t.0
                            && p.1.valid_totp == true && p.1.roles@ == t.3 && p.1.iat == t.4
                            && p.1.exp == t.2 && p.0@ == jwt_bytes(p.1, key@)
                    } else {
                        r matches Ok(o) && o is None
                    }
                },
            },
        },
{
    let v = match cookie {
        Some(v) => v,
        None => {
            return Err(GenericAuthError::GenericAuthError(AuthError::MissingCredentials));
        },
    };
    let mut ctx = match resolve(v, key, now) {
        Ok(c) => c,
        Err(_) => {
            return Err(GenericAuthError::GenericAuthError(AuthError::InvalidCredentials));
        },
    };
    if !totp_verify(secret, code, now) {
        return Ok(None);
    }
    ctx.with_valid_totp(true);
    let refreshed_jwt = ctx.to_jwt(key);
    Ok(Some((refreshed_jwt, ctx)))
}

} // verus!
