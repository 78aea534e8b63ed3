use wol_server::ctx::Ctx;
use wol_server::error::CtxError;
use wol_server::role::Role;
use wol_server::token::{ctx_resolve, resolve, should_scrub, CtxExtError};

const KEY: &[u8] = b"test-signing-key-0123456789";
// far enough ahead that an outside verifier's own clock sees the token as live
const NOW: u64 = 4_000_000_000;

fn sample_ctx() -> Ctx {
    let mut c = Ctx::new(0x1234_5678_9abc_def0_1122_3344_5566_7788u128, vec![
        Role::Admin,
        Role::User,
    ]);
    c.as_auth(NOW);
    c
}

#[test]
fn issue_then_resolve_returns_same_claims() {
    let c = sample_ctx();
    let tok = c.to_jwt(KEY);
    let r = resolve(&tok, KEY, NOW).expect("fresh token must resolve");
    assert_eq!(r.user_id, c.user_id);
    assert_eq!(r.valid_totp, c.valid_totp);
    assert_eq!(r.roles, vec![Role::Admin, Role::User]);
    assert_eq!(r.exp, NOW + wol_server::ctx::AUTH_TTL_SECS);
    assert_eq!(r.iat, NOW);
}

#[test]
fn expired_token_resolves_invalid() {
    let c = sample_ctx();
    let tok = c.to_jwt(KEY);
    let late = NOW + wol_server::ctx::AUTH_TTL_SECS + 1;
    match resolve(&tok, KEY, late) {
        Err(CtxExtError::TokenInvalid) => {}
        other => panic!("expected TokenInvalid, got {:?}", other),
    }
}

#[test]
fn token_at_exact_expiry_still_resolves() {
    let c = sample_ctx();
    let tok = c.to_jwt(KEY);
    assert!(resolve(&tok, KEY, NOW + wol_server::ctx::AUTH_TTL_SECS).is_ok());
}

#[test]
fn wrong_key_resolves_invalid() {
    let c = sample_ctx();
    let tok = c.to_jwt(KEY);
    match resolve(&tok, b"another-key-entirely", NOW) {
        Err(CtxExtError::TokenInvalid) => {}
        other => panic!("expected TokenInvalid, got {:?}", other),
    }
}

#[test]
fn tampered_payload_is_rejected() {
    let c = sample_ctx();
    let mut tok = c.to_jwt(KEY);
    // flip a byte in the middle of the payload part
    let first_dot = tok.iter().position(|&b| b == b'.').unwrap();
    let idx = first_dot + 5;
    tok[idx] = if tok[idx] == b'A' { b'B' } else { b'A' };
    assert!(resolve(&tok, KEY, NOW).is_err());
}

#[test]
fn garbage_is_malformed() {
    match resolve(b"not-a-token", KEY, NOW) {
        Err(CtxExtError::TokenMalformed) => {}
        other => panic!("expected TokenMalformed, got {:?}", other),
    }
    match resolve(b"a.b.c", KEY, NOW) {
        Err(CtxExtError::TokenMalformed) => {}
        other => panic!("expected TokenMalformed, got {:?}", other),
    }
}

#[test]
fn jsonwebtoken_accepts_our_tokens() {
    // an independent verifier must read the same claim values
    let c = sample_ctx();
    let tok_bytes = c.to_jwt(KEY);
    let tok = String::from_utf8(tok_bytes).expect("token is ASCII");
    let decoded = jsonwebtoken::decode::<serde_json::Value>(
        &tok,
        &jsonwebtoken::DecodingKey::from_secret(KEY),
        &jsonwebtoken::Validation::default(),
    )
    .expect("jsonwebtoken must accept the token");
    let claims = decoded.claims;
    assert_eq!(
        claims["user_id"].as_str().unwrap(),
        "12345678-9abc-def0-1122-334455667788"
    );
    assert_eq!(claims["valid_totp"].as_bool().unwrap(), false);
    assert_eq!(claims["exp"].as_u64().unwrap(), NOW + 3600);
    assert_eq!(claims["iat"].as_u64().unwrap(), NOW);
    let roles: Vec<&str> = claims["roles"]
        .as_array()
        .unwrap()
        .iter()
        .map(|v| v.as_str().unwrap())
        .collect();
    assert_eq!(roles, vec!["Admin", "User"]);
}

#[test]
fn header_resolution_requires_bearer_scheme() {
    let c = sample_ctx();
    let tok = c.to_jwt(KEY);

    let mut good = b"Bearer ".to_vec();
    good.extend_from_slice(&tok);
    let r = ctx_resolve(Some(&good), KEY, NOW).expect("bearer header must resolve");
    assert_eq!(r.user_id, c.user_id);

    let mut bad = b"Basic ".to_vec();
    bad.extend_from_slice(&tok);
    match ctx_resolve(Some(&bad), KEY, NOW) {
        Err(CtxExtError::TokenMalformed) => {}
        other => panic!("expected TokenMalformed, got {:?}", other),
    }

    match ctx_resolve(None, KEY, NOW) {
        Err(CtxExtError::TokenNotInCookie) => {}
        other => panic!("expected TokenNotInCookie, got {:?}", other),
    }

    match ctx_resolve(Some(&tok), KEY, NOW) {
        Err(CtxExtError::TokenMalformed) => {}
        other => panic!("expected TokenMalformed for a header without a scheme, got {:?}", other),
    }
}

#[test]
fn from_jwt_folds_failures_into_a_decode_error() {
    let c = sample_ctx();
    let tok = c.to_jwt(KEY);
    let ok = Ctx::from_jwt(&tok, KEY, NOW).expect("fresh token must resolve");
    assert_eq!(ok.user_id, c.user_id);
    assert_eq!(
        Ctx::from_jwt(b"garbage", KEY, NOW).unwrap_err(),
        CtxError::JwtDecodeError
    );
    assert_eq!(
        Ctx::from_jwt(&tok, b"other-key", NOW).unwrap_err(),
        CtxError::JwtDecodeError
    );
}

#[test]
fn scrubbing_spares_only_the_anonymous_case() {
    assert!(!should_scrub(&Ok(sample_ctx())));
    assert!(!should_scrub(&Err(CtxExtError::TokenNotInCookie)));
    assert!(should_scrub(&Err(CtxExtError::TokenMalformed)));
    assert!(should_scrub(&Err(CtxExtError::TokenInvalid)));
}
