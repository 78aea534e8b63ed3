use wol_server::ctx::Ctx;
use wol_server::password::{
    hash_password_sync, is_password_strong, validate_credentials, verify_password_hash,
    Credentials, DUMMY_HASH,
};
use wol_server::role::Role;

#[test]
fn strong_password_is_accepted() {
    assert!(is_password_strong("Passw0rd"));
    assert!(is_password_strong("aB3aB3aB3"));
}

#[test]
fn short_password_is_rejected() {
    assert!(!is_password_strong("Pa0s"));
    assert!(!is_password_strong("Pass0rd"));
}

#[test]
fn password_without_a_class_is_rejected() {
    assert!(!is_password_strong("password1")); // no uppercase
    assert!(!is_password_strong("PASSWORD1")); // no lowercase
    assert!(!is_password_strong("Passwords")); // no digit
}

#[test]
fn hash_then_verify_succeeds() {
    let hash = hash_password_sync("Correct-Horse1").expect("hashing must succeed");
    assert!(verify_password_hash(&hash, "Correct-Horse1").is_ok());
}

#[test]
fn verify_rejects_wrong_password() {
    let hash = hash_password_sync("Correct-Horse1").expect("hashing must succeed");
    assert!(verify_password_hash(&hash, "Wrong-Horse1").is_err());
}

#[test]
fn two_hashes_of_one_password_differ_by_salt() {
    let h1 = hash_password_sync("Correct-Horse1").unwrap();
    let h2 = hash_password_sync("Correct-Horse1").unwrap();
    assert_ne!(h1, h2);
    assert!(verify_password_hash(&h2, "Correct-Horse1").is_ok());
}

#[test]
fn dummy_hash_never_validates_a_login() {
    assert!(verify_password_hash(DUMMY_HASH, "anything-At-All1").is_err());
}

#[test]
fn validate_credentials_accepts_the_stored_user() {
    let hash = hash_password_sync("Correct-Horse1").unwrap();
    let stored = Ctx::new(7, vec![Role::User]);
    let creds = Credentials {
        email: String::from("a@b.c"),
        password: String::from("Correct-Horse1"),
    };
    let out = validate_credentials(Some((stored, hash)), &creds).expect("login must succeed");
    assert_eq!(out.user_id, 7);
    assert_eq!(out.roles, vec![Role::User]);
}

#[test]
fn validate_credentials_rejects_wrong_password() {
    let hash = hash_password_sync("Correct-Horse1").unwrap();
    let stored = Ctx::new(7, vec![Role::User]);
    let creds = Credentials {
        email: String::from("a@b.c"),
        password: String::from("Wrong-Horse1"),
    };
    assert!(validate_credentials(Some((stored, hash)), &creds).is_err());
}

#[test]
fn validate_credentials_rejects_unknown_user() {
    let creds = Credentials {
        email: String::from("a@b.c"),
        password: String::from("Correct-Horse1"),
    };
    assert!(validate_credentials(None, &creds).is_err());
}

#[test]
fn argon2_crate_verifies_our_hashes() {
    // an independent verifier accepts the produced PHC string
    let hash = hash_password_sync("Correct-Horse1").unwrap();
    let parsed = argon2::PasswordHash::new(&hash).expect("PHC string must parse");
    assert!(argon2::PasswordVerifier::verify_password(
        &argon2::Argon2::default(),
        b"Correct-Horse1",
        &parsed
    )
    .is_ok());
}
