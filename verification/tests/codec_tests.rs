use wol_server::b64::{b64_decode_bytes, b64_encode_bytes};
use wol_server::claims::{claims_to_json, parse_claims_json};
use wol_server::ctx::Ctx;
use wol_server::numfmt::{parse_dec_at, parse_uuid_at, u128_to_uuid, u64_to_dec};
use wol_server::role::{join_roles, Role};

#[test]
fn base64url_rfc_4648_vectors() {
    assert_eq!(b64_encode_bytes(b""), b"".to_vec());
    assert_eq!(b64_encode_bytes(b"f"), b"Zg".to_vec());
    assert_eq!(b64_encode_bytes(b"fo"), b"Zm8".to_vec());
    assert_eq!(b64_encode_bytes(b"foo"), b"Zm9v".to_vec());
    assert_eq!(b64_encode_bytes(b"foob"), b"Zm9vYg".to_vec());
    assert_eq!(b64_encode_bytes(b"fooba"), b"Zm9vYmE".to_vec());
    assert_eq!(b64_encode_bytes(b"foobar"), b"Zm9vYmFy".to_vec());
}

#[test]
fn base64url_uses_url_safe_alphabet() {
    // 0xfb 0xff encodes with '-' and '_', never '+' or '/'
    assert_eq!(b64_encode_bytes(&[0xfb, 0xef]), b"--8".to_vec());
    assert_eq!(b64_encode_bytes(&[0xff, 0xff]), b"__8".to_vec());
}

#[test]
fn base64url_decode_inverts_encode() {
    let cases: Vec<&[u8]> = vec![b"", b"f", b"fo", b"foo", b"foob", b"fooba", b"foobar"];
    for case in cases {
        let enc = b64_encode_bytes(case);
        assert_eq!(b64_decode_bytes(&enc).unwrap(), case.to_vec());
    }
}

#[test]
fn base64url_decode_is_strict() {
    assert!(b64_decode_bytes(b"A").is_none()); // a lone character
    assert!(b64_decode_bytes(b"Zg==").is_none()); // padding is not accepted
    assert!(b64_decode_bytes(b"Zh").is_none()); // non-zero trailing bits
    assert!(b64_decode_bytes(b"Z+").is_none()); // standard alphabet, not url-safe
}

#[test]
fn decimal_formats_exactly() {
    assert_eq!(u64_to_dec(0), b"0".to_vec());
    assert_eq!(u64_to_dec(7), b"7".to_vec());
    assert_eq!(u64_to_dec(1700000000), b"1700000000".to_vec());
    assert_eq!(u64_to_dec(u64::MAX), b"18446744073709551615".to_vec());
}

#[test]
fn decimal_parses_exactly() {
    assert_eq!(parse_dec_at(b"1700000000,", 0), Some((1700000000, 10)));
    assert_eq!(parse_dec_at(b"0}", 0), Some((0, 1)));
    assert_eq!(parse_dec_at(b"18446744073709551615", 0), Some((u64::MAX, 20)));
    assert_eq!(parse_dec_at(b"18446744073709551616", 0), None); // past u64
    assert_eq!(parse_dec_at(b"007", 0), None); // leading zero
    assert_eq!(parse_dec_at(b"x1", 0), None); // no digit at the position
}

#[test]
fn uuid_formatting_matches_the_uuid_crate() {
    let ids: Vec<u128> = vec![
        0,
        1,
        0x1234_5678_9abc_def0_1122_3344_5566_7788,
        u128::MAX,
    ];
    for id in ids {
        let ours = String::from_utf8(u128_to_uuid(id)).unwrap();
        let theirs = uuid::Uuid::from_u128(id).to_string();
        assert_eq!(ours, theirs);
    }
}

#[test]
fn uuid_parses_back() {
    let id = 0x1234_5678_9abc_def0_1122_3344_5566_7788u128;
    let bytes = u128_to_uuid(id);
    assert_eq!(parse_uuid_at(&bytes, 0), Some(id));
    assert_eq!(parse_uuid_at(b"12345678-9abc-def0-1122-33445566778x", 0), None);
    // only the canonical lowercase form is accepted
    assert_eq!(parse_uuid_at(b"12345678-9ABC-DEF0-1122-334455667788", 0), None);
    assert_eq!(parse_uuid_at(b"123456789abcdef01122334455667788...", 0), None);
}

#[test]
fn claim_json_takes_the_canonical_form() {
    let mut c = Ctx::new(1, vec![Role::Admin]);
    c.as_auth(5); // iat 5, exp 3605
    let json = claims_to_json(&c);
    assert_eq!(
        String::from_utf8(json).unwrap(),
        "{\"user_id\":\"00000000-0000-0000-0000-000000000001\",\"valid_totp\":false,\"exp\":3605,\"roles\":[\"Admin\"],\"iat\":5}"
    );
}

#[test]
fn claim_json_round_trips() {
    let mut c = Ctx::new(0xdeadbeef, vec![Role::Admin, Role::User]);
    c.with_valid_totp(true);
    c.as_refresh(1_700_000_000);
    let json = claims_to_json(&c);
    let back = parse_claims_json(&json).expect("canonical form must parse");
    assert_eq!(back.user_id, c.user_id);
    assert_eq!(back.valid_totp, true);
    assert_eq!(back.exp, c.exp);
    assert_eq!(back.iat, c.iat);
    assert_eq!(back.roles, vec![Role::Admin, Role::User]);
}

#[test]
fn claim_json_agrees_with_serde_json() {
    let mut c = Ctx::new(42, vec![Role::User]);
    c.as_auth(1_700_000_000);
    let json = claims_to_json(&c);
    let v: serde_json::Value = serde_json::from_slice(&json).expect("well-formed JSON");
    assert_eq!(v["user_id"].as_str().unwrap(), "00000000-0000-0000-0000-00000000002a");
    assert_eq!(v["valid_totp"].as_bool().unwrap(), false);
    assert_eq!(v["exp"].as_u64().unwrap(), 1_700_003_600);
    assert_eq!(v["iat"].as_u64().unwrap(), 1_700_000_000);
    assert_eq!(v["roles"].as_array().unwrap().len(), 1);
}

#[test]
fn claim_json_rejects_reordered_fields() {
    let noncanonical = b"{\"valid_totp\":false,\"user_id\":\"00000000-0000-0000-0000-000000000001\",\"exp\":3605,\"roles\":[],\"iat\":5}";
    assert!(parse_claims_json(noncanonical).is_none());
}

#[test]
fn roles_parse_and_join() {
    assert_eq!(Role::parse_roles("admin"), Ok(vec![Role::Admin]));
    assert_eq!(Role::parse_roles("admin|user"), Ok(vec![Role::Admin, Role::User]));
    assert!(Role::parse_roles("").is_err());
    assert!(Role::parse_roles("root").is_err());
    assert!(Role::parse_roles("admin|").is_err());
    assert_eq!(join_roles(&vec![Role::Admin, Role::User]), "admin|user");
    // consecutive duplicates are dropped, as when roles are stored
    assert_eq!(join_roles(&vec![Role::User, Role::User, Role::Admin]), "user|admin");
    let joined = join_roles(&vec![Role::Admin, Role::User]);
    assert_eq!(Role::parse_roles(&joined), Ok(vec![Role::Admin, Role::User]));
}

#[test]
fn role_tags() {
    assert_eq!(Role::Admin.as_str(), "admin");
    assert_eq!(Role::User.as_str(), "user");
    assert_eq!(Role::parse_tag("user"), Ok(Role::User));
    assert!(Role::parse_tag("Admin").is_err());
}
