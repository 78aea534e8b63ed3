use wol_server::totp::{
    gen_totp_secret, totp_generate, totp_provisioning_url, totp_secret_base32, totp_verify,
    TOTP_SECRET_LEN,
};

// the shared secret of the RFC 6238 SHA-1 test vectors
const RFC_SECRET: &[u8] = b"12345678901234567890";

#[test]
fn rfc_6238_vector_at_t59() {
    // the RFC's 8-digit code at T = 59 is 94287082; ours keeps 6 digits
    assert_eq!(totp_generate(RFC_SECRET, 59), "287082");
}

#[test]
fn rfc_6238_vector_at_t1111111109() {
    // the RFC's 8-digit code is 07081804
    assert_eq!(totp_generate(RFC_SECRET, 1_111_111_109), "081804");
}

#[test]
fn generated_code_is_accepted_at_its_time() {
    let now: u64 = 1_700_000_000;
    let code = totp_generate(RFC_SECRET, now);
    assert!(totp_verify(RFC_SECRET, &code, now));
}

#[test]
fn one_step_of_skew_is_tolerated() {
    let now: u64 = 1_700_000_000;
    let earlier = totp_generate(RFC_SECRET, now - 30);
    let later = totp_generate(RFC_SECRET, now + 30);
    assert!(totp_verify(RFC_SECRET, &earlier, now));
    assert!(totp_verify(RFC_SECRET, &later, now));
}

#[test]
fn stale_code_is_rejected() {
    let now: u64 = 1_700_000_000;
    let stale = totp_generate(RFC_SECRET, now - 120);
    assert!(!totp_verify(RFC_SECRET, &stale, now));
}

#[test]
fn code_of_another_secret_is_rejected() {
    let now: u64 = 1_700_000_000;
    let other = totp_generate(b"99999999999999999999", now);
    let own = totp_generate(RFC_SECRET, now);
    if other != own {
        assert!(!totp_verify(RFC_SECRET, &other, now));
    }
    // the matching direction always holds
    assert!(totp_verify(RFC_SECRET, &own, now));
}

#[test]
fn secret_base32_matches_rfc_4648() {
    assert_eq!(
        totp_secret_base32(RFC_SECRET),
        "GEZDGNBVGY3TQOJQGEZDGNBVGY3TQOJQ"
    );
}

#[test]
fn provisioning_url_carries_the_secret_and_issuer() {
    let url = totp_provisioning_url(RFC_SECRET, "wol");
    assert!(url.starts_with("otpauth://totp/"));
    assert!(url.contains("GEZDGNBVGY3TQOJQGEZDGNBVGY3TQOJQ"));
    assert!(url.contains("issuer=wol"));
}

#[test]
fn generated_secrets_have_the_configured_length() {
    let s1 = gen_totp_secret();
    let s2 = gen_totp_secret();
    assert_eq!(s1.len(), TOTP_SECRET_LEN);
    assert_eq!(s2.len(), TOTP_SECRET_LEN);
    // 2^168 possibilities: two draws never collide in practice
    assert_ne!(s1, s2);
}

#[test]
fn totp_rs_generates_the_same_codes() {
    // the wrapper and a direct use of the outside crate must agree
    let now: u64 = 1_700_000_000;
    let direct = totp_rs::TOTP::new(
        totp_rs::Algorithm::SHA1,
        6,
        1,
        30,
        RFC_SECRET.to_vec(),
        None,
        String::new(),
    )
    .unwrap()
    .generate(now);
    assert_eq!(totp_generate(RFC_SECRET, now), direct);
}
