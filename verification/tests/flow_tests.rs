use wol_server::configuration::Environment;
use wol_server::ctx::{Ctx, AUTH_TTL_SECS, REFRESH_TTL_SECS};
use wol_server::error::{AuthError, CtxError, GenericAuthError};
use wol_server::flows::{
    login_core, refresh_core, totp_post_core, totp_regenerate_core, totp_validate_core,
};
use wol_server::gates::{gate_active, gate_admin, gate_require, gate_totp};
use wol_server::password::{hash_password_sync, Credentials};
use wol_server::role::Role;
use wol_server::token::{resolve, CtxExtError};
use wol_server::totp::totp_generate;

const KEY: &[u8] = b"test-signing-key-0123456789";
const NOW: u64 = 1_700_000_000;
const RFC_SECRET: &[u8] = b"12345678901234567890";

fn creds(password: &str) -> Credentials {
    Credentials {
        email: String::from("a@b.c"),
        password: String::from(password),
    }
}

#[test]
fn login_issues_both_lifetime_classes() {
    let hash = hash_password_sync("Correct-Horse1").unwrap();
    let stored = Ctx::new(7, vec![Role::User]);
    let out = login_core(Some((stored, hash)), &creds("Correct-Horse1"), KEY, NOW)
        .expect("login must succeed");

    // the access credential lives for the access lifetime exactly
    let auth = resolve(&out.auth_jwt, KEY, NOW).unwrap();
    assert_eq!(auth.exp - auth.iat, AUTH_TTL_SECS);
    assert_eq!(auth.user_id, 7);

    // the refresh credential lives for thirty days exactly
    let refresh = resolve(&out.refresh_jwt, KEY, NOW).unwrap();
    assert_eq!(refresh.exp - refresh.iat, REFRESH_TTL_SECS);
    assert_eq!(refresh.exp - refresh.iat, 30 * 86400);

    // a plain user is turned away from the admin gate, never let through
    assert_eq!(gate_admin(&auth), Some(401));
    assert_eq!(gate_totp(&auth), Some(403));
}

#[test]
fn login_rejects_bad_password_and_unknown_user() {
    let hash = hash_password_sync("Correct-Horse1").unwrap();
    let stored = Ctx::new(7, vec![Role::User]);
    assert!(matches!(
        login_core(Some((stored, hash)), &creds("Wrong-Horse1"), KEY, NOW),
        Err(AuthError::InvalidCredentials)
    ));
    assert!(login_core(None, &creds("Correct-Horse1"), KEY, NOW).is_err());
}

#[test]
fn refresh_mints_a_fresh_access_credential() {
    let mut c = Ctx::new(9, vec![Role::Admin]);
    c.as_refresh(NOW);
    let cookie = c.to_jwt(KEY);
    let later = NOW + 1000;
    let (auth_jwt, ctx) = refresh_core(Some(&cookie), KEY, later).expect("refresh must succeed");
    assert_eq!(ctx.user_id, 9);
    assert_eq!(ctx.iat, later);
    assert_eq!(ctx.exp, later + AUTH_TTL_SECS);
    let resolved = resolve(&auth_jwt, KEY, later).unwrap();
    assert_eq!(resolved.user_id, 9);
    assert_eq!(resolved.exp - resolved.iat, AUTH_TTL_SECS);
}

#[test]
fn refresh_with_expired_cookie_mints_nothing() {
    let mut c = Ctx::new(9, vec![Role::Admin]);
    c.as_refresh(NOW);
    let cookie = c.to_jwt(KEY);
    let after_expiry = NOW + REFRESH_TTL_SECS + 1;
    match refresh_core(Some(&cookie), KEY, after_expiry) {
        Err(GenericAuthError::GenericAuthError(AuthError::InvalidCredentials)) => {}
        other => panic!("expected an authentication failure, got {:?}", other),
    }
}

#[test]
fn refresh_without_cookie_is_missing_credentials() {
    match refresh_core(None, KEY, NOW) {
        Err(GenericAuthError::GenericAuthError(AuthError::MissingCredentials)) => {}
        other => panic!("expected MissingCredentials, got {:?}", other),
    }
}

#[test]
fn enrollment_resets_the_second_factor() {
    let mut c = Ctx::new(5, vec![Role::User]);
    c.with_valid_totp(true);
    let (refresh_jwt, url, b32) = totp_regenerate_core(&c, RFC_SECRET, "wol", KEY, NOW);
    let resolved = resolve(&refresh_jwt, KEY, NOW).unwrap();
    assert_eq!(resolved.valid_totp, false);
    assert_eq!(resolved.user_id, 5);
    assert!(url.contains(&b32));
}

#[test]
fn validation_with_a_good_code_satisfies_the_factor() {
    let c = Ctx::new(5, vec![Role::User]);
    let code = totp_generate(RFC_SECRET, NOW);
    let (refresh_jwt, auth_jwt, ctx) =
        totp_validate_core(&c, Some(RFC_SECRET), &code, KEY, NOW).expect("code must be accepted");
    assert!(ctx.valid_totp);
    assert_eq!(gate_totp(&ctx), None);
    let refresh = resolve(&refresh_jwt, KEY, NOW).unwrap();
    assert!(refresh.valid_totp);
    assert_eq!(refresh.exp - refresh.iat, REFRESH_TTL_SECS);
    let auth = resolve(&auth_jwt, KEY, NOW).unwrap();
    assert!(auth.valid_totp);
    assert_eq!(auth.exp - auth.iat, AUTH_TTL_SECS);
}

#[test]
fn validation_rejects_bad_code_or_missing_enrollment() {
    let c = Ctx::new(5, vec![Role::User]);
    assert!(totp_validate_core(&c, Some(RFC_SECRET), "000000", KEY, NOW).is_none()
        || totp_generate(RFC_SECRET, NOW) == "000000");
    assert!(totp_validate_core(&c, None, "123456", KEY, NOW).is_none());
}

#[test]
fn reverification_keeps_the_credential_lifetimes() {
    let mut c = Ctx::new(5, vec![Role::User]);
    c.as_refresh(NOW - 1000);
    let cookie = c.to_jwt(KEY);
    let code = totp_generate(RFC_SECRET, NOW);
    let out = totp_post_core(Some(&cookie), RFC_SECRET, &code, KEY, NOW)
        .expect("resolution must succeed")
        .expect("code must be accepted");
    let resolved = resolve(&out.0, KEY, NOW).unwrap();
    assert!(resolved.valid_totp);
    assert_eq!(resolved.iat, NOW - 1000);
    assert_eq!(resolved.exp, NOW - 1000 + REFRESH_TTL_SECS);
}

#[test]
fn reverification_requires_a_cookie_and_a_good_code() {
    match totp_post_core(None, RFC_SECRET, "123456", KEY, NOW) {
        Err(GenericAuthError::GenericAuthError(AuthError::MissingCredentials)) => {}
        other => panic!("expected MissingCredentials, got {:?}", other),
    }
    let mut c = Ctx::new(5, vec![Role::User]);
    c.as_refresh(NOW);
    let cookie = c.to_jwt(KEY);
    let stale = totp_generate(RFC_SECRET, NOW - 120);
    assert!(totp_post_core(Some(&cookie), RFC_SECRET, &stale, KEY, NOW)
        .unwrap()
        .is_none());
}

#[test]
fn gates_distinguish_identity_from_privilege() {
    let mut admin = Ctx::new(1, vec![Role::Admin]);
    admin.with_valid_totp(true);
    assert_eq!(gate_require(&Ok(admin.dup())), None);
    assert_eq!(gate_require(&Err(CtxExtError::TokenInvalid)), Some(401));
    assert_eq!(gate_admin(&admin), None);
    assert_eq!(gate_totp(&admin), None);
    assert_eq!(gate_active(Some(true)), Ok(()));
    assert_eq!(gate_active(Some(false)), Err(AuthError::InactiveUser));
    assert_eq!(gate_active(None), Err(AuthError::InactiveUser));
}

#[test]
fn error_statuses_follow_the_taxonomy() {
    assert_eq!(AuthError::MissingCredentials.status_code(), 401);
    assert_eq!(AuthError::InvalidCredentials.status_code(), 401);
    assert_eq!(AuthError::CtxError(CtxError::JwtDecodeError).status_code(), 401);
    assert_eq!(AuthError::UnexpectedError.status_code(), 500);
    assert_eq!(AuthError::InactiveUser.status_code(), 403);
    assert_eq!(CtxError::JwtEncodeError.status_code(), 500);
    assert_eq!(
        GenericAuthError::GenericAuthError(AuthError::InvalidCredentials).status_code(),
        401
    );
    assert_eq!(
        GenericAuthError::GenericCtxError(CtxError::JwtDecodeError).status_code(),
        500
    );
    assert_eq!(GenericAuthError::GenericUnknownError.status_code(), 500);
}

#[test]
fn context_construction_and_validity() {
    let c = Ctx::new(3, vec![Role::User]);
    assert!(c.valid());
    assert!(!c.is_admin());
    assert_eq!(c.exp, 0);
    assert_eq!(c.iat, 0);
    let anon = Ctx::default();
    assert!(!anon.valid());
    assert_eq!(anon.user_id, 0);
    let mut c2 = Ctx::default();
    c2.with_user(11, vec![Role::Admin]);
    assert!(c2.is_admin());
    assert_eq!(c2.user_id, 11);
}

#[test]
fn environment_names_round_trip() {
    assert_eq!(Environment::Dev.as_str(), "dev");
    assert_eq!(Environment::Prod.as_str(), "prod");
    assert_eq!(Environment::parse("dev"), Ok(Environment::Dev));
    assert_eq!(Environment::parse("prod"), Ok(Environment::Prod));
    assert!(Environment::parse("staging").is_err());
}
