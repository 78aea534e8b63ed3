//! Password strength, hashing and verification.
//!
//! Hashing uses a memory-hard, salted, versioned scheme through trusted
//! wrappers; whether a password verifies against a stored hash is named by
//! `phc_verifies`, which ties the two wrappers together. Credential
//! validation always performs one verification, against a fixed dummy hash
//! when the user is unknown, so login latency does not reveal whether a
//! username exists.

use vstd::prelude::*;

verus! {

use crate::ctx::Ctx;
use crate::error::AuthError;
use vstd::string::StrSliceExecFns;
use vstd::string::StringSliceAdditionalSpecFns;
use vstd::utf8::encode_utf8;

/// Memory cost of the hashing scheme, in KiB blocks.
pub const HASH_M_COST: u32 = 15000;

/// Iteration count of the hashing scheme.
pub const HASH_T_COST: u32 = 2;

/// Degree of parallelism of the hashing scheme.
pub const HASH_P_COST: u32 = 1;

/// A fixed, well-formed hash that unknown-user logins are verified
/// against, so that their latency matches a wrong-password login.
pub const DUMMY_HASH: &'static str = "$argon2id$v=19$m=15000,t=2,p=1$gZiV/M1gPc22ElAH/Jh1Hw$CWOrkoo7oJBQ/iyh7uJ0LO2aLEfrHwTWllSAxT0zRno";

/// A login request: the login identifier and the candidate password.
#[derive(Debug)]
pub struct Credentials {
    pub email: String,
    pub password: String,
}

/// Whether `password` verifies against the PHC hash string `hash`: a
/// function of the two alone.
pub uninterp spec fn phc_verifies(hash: Seq<char>, password: Seq<u8>) -> bool;

/// A salt string that the hashing scheme accepts.
pub uninterp spec fn valid_salt_str(s: Seq<char>) -> bool;

/// Relies on `argon2::password_hash::SaltString::generate`: a fresh random
/// salt of the recommended length, in valid B64 form, which the hashing
/// scheme accepts.
#[verifier::external_body]
fn gen_salt() -> (r: String)
    ensures
        valid_salt_str(r@),
{
    argon2::password_hash::SaltString::generate(&mut rand::thread_rng()).as_str().to_owned()
}

/// Relies on argon2's `PasswordHasher::hash_password` (Argon2id, version
/// 0x13): with a valid salt, parameters in range and a password of at most
/// 2^32 - 1 bytes it succeeds, and the produced PHC string verifies
/// against the same password.
#[verifier::external_body]
fn argon2_hash(password: &[u8], salt: &str, m_cost: u32, t_cost: u32, p_cost: u32) -> (r: Result<
    String,
    (),
>)
    ensures
        r matches Ok(h) ==> phc_verifies(h@, password@),
        (valid_salt_str(salt@) && 8 <= m_cost && p_cost * 8 <= m_cost && 1 <= t_cost && 1 <= p_cost
            <= 0xFFFFFF && password@.len() <= 0xFFFFFFFF) ==> r is Ok,
{
    let salt = argon2::password_hash::Salt::from_b64(salt).map_err(|_| ())?;
    let params = argon2::Params::new(m_cost, t_cost, p_cost, None).map_err(|_| ())?;
    let hasher = argon2::Argon2::new(argon2::Algorithm::Argon2id, argon2::Version::V0x13, params);
    argon2::PasswordHasher::hash_password(&hasher, password, salt)
        .map(|h| h.to_string())
        .map_err(|_| ())
}

/// Relies on argon2's `PasswordVerifier::verify_password`: it re-computes
/// the hash under the parameters and salt carried by the PHC string and
/// compares in constant time; true exactly when the password verifies. A
/// string that does not parse as a PHC hash verifies nothing.
#[verifier::external_body]
fn argon2_verify(password: &[u8], hash: &str) -> (r: bool)
    ensures
        r == phc_verifies(hash@, password@),
{
    match argon2::PasswordHash::new(hash) {
        Ok(parsed) => argon2::PasswordVerifier::verify_password(
            &argon2::Argon2::default(),
            password,
            &parsed,
        ).is_ok(),
        Err(_) => false,
    }
}

/// Whether `c` is an ASCII digit.
pub open spec fn is_digit_char(c: char) -> bool {
    48 <= c as u32 <= 57
}

/// Whether `c` has the Unicode Lowercase property: a function of the
/// character alone.
pub uninterp spec fn is_lowercase_char(c: char) -> bool;

/// Whether `c` has the Unicode Uppercase property: a function of the
/// character alone.
pub uninterp spec fn is_uppercase_char(c: char) -> bool;

/// Relies on `char::is_lowercase`: the Unicode Lowercase property, which
/// among ASCII characters holds of a-z and of nothing else.
pub assume_specification[ char::is_lowercase ](c: char) -> (r: bool)
    ensures
        r == is_lowercase_char(c),
        (97 <= c as u32 && c as u32 <= 122) ==> r,
        ((c as u32) < 128 && !(97 <= c as u32 && c as u32 <= 122)) ==> !r,
;

/// Relies on `char::is_uppercase`: the Unicode Uppercase property, which
/// among ASCII characters holds of A-Z and of nothing else.
pub assume_specification[ char::is_uppercase ](c: char) -> (r: bool)
    ensures
        r == is_uppercase_char(c),
        (65 <= c as u32 && c as u32 <= 90) ==> r,
        ((c as u32) < 128 && !(65 <= c as u32 && c as u32 <= 90)) ==> !r,
        r ==> !is_lowercase_char(c),
;

/// A password is strong when it has at least eight bytes and carries at
/// least one lowercase letter, one uppercase letter and one ASCII digit.
pub open spec fn password_strong(p: &str) -> bool {
    &&& p.spec_bytes().len() >= 8
    &&& exists|i: int| 0 <= i < p@.len() && is_lowercase_char(#[trigger] p@[i])
    &&& exists|i: int| 0 <= i < p@.len() && is_uppercase_char(#[trigger] p@[i])
    &&& exists|i: int| 0 <= i < p@.len() && is_digit_char(#[trigger] p@[i])
}

/// Accepts exactly the strong passwords: at least eight bytes, at least
/// one lowercase, one uppercase and one digit.
pub fn is_password_strong(password: &str) -> (r: bool)
    ensures
        r == password_strong(password),
{
    let byte_len = password.as_bytes().len();
    if byte_len < 8 {
        return false;
    }
    let n = password.unicode_len();
    let mut has_lower = false;
    let mut has_upper = false;
    let mut has_digit = false;
    let mut i: usize = 0;
    while i < n
        invariant
            i <= n,
            n == password@.len(),
            has_lower == exists|j: int| 0 <= j < i && is_lowercase_char(#[trigger] password@[j]),
            has_upper == exists|j: int| 0 <= j < i && is_uppercase_char(#[trigger] password@[j]),
            has_digit == exists|j: int| 0 <= j < i && is_digit_char(#[trigger] password@[j]),
        decreases n - i,
    {
        let c = password.get_char(i);
        let lo = c.is_lowercase();
        let up = c.is_uppercase();
        if lo {
            has_lower = true;
        } else if up {
            has_upper = true;
        } else if (c as u32) >= 48 && (c as u32) <= 57 {
            has_digit = true;
        }
        proof {
            if is_digit_char(c) {
                assert(!is_lowercase_char(c));
                assert(!is_uppercase_char(c));
            }
        }
        i = i + 1;
    }
    has_lower && has_upper && has_digit
}

/// Hashes a password with a fresh random salt under the scheme's
/// parameters. Succeeds for every password of fewer than 2^32 bytes, and
/// the produced hash verifies against the password.
pub fn hash_password_sync(password: &str) -> (r: Result<String, AuthError>)
    ensures
        r matches Ok(h) ==> phc_verifies(h@, password.spec_bytes()),
        password.spec_bytes().len() <= 0xFFFFFFFF ==> r is Ok,
{
    let salt = gen_salt();
    match argon2_hash(password.as_bytes(), salt.as_str(), HASH_M_COST, HASH_T_COST, HASH_P_COST) {
        Ok(h) => Ok(h),
        Err(_) => Err(AuthError::UnexpectedError),
    }
}

/// Verifies a candidate password against a stored hash; the mismatch error
/// does not say why the password failed.
pub fn verify_password_hash(expected_password_hash: &str, password_candidate: &str) -> (r: Result<
    (),
    AuthError,
>)
    ensures
        r == if phc_verifies(expected_password_hash@, password_candidate.spec_bytes()) {
            Ok::<(), AuthError>(())
        } else {
            Err::<(), AuthError>(AuthError::InvalidCredentials)
        },
{
    if argon2_verify(password_candidate.as_bytes(), expected_password_hash) {
        Ok(())
    } else {
        Err(AuthError::InvalidCredentials)
    }
}

/// Validates a login against the stored record, if any. Exactly one hash
/// verification runs on every path: against the stored hash when the user
/// is known, against the fixed dummy hash when not, so the two cases take
/// the same time. Succeeds exactly when the user exists and the password
/// verifies, and then returns the stored identity context.
pub fn validate_credentials(lookup: Option<(Ctx, String)>, credentials: &Credentials) -> (r:
    Result<Ctx, AuthError>)
    ensures
        match lookup {
            Some(stored) => {
                if phc_verifies(stored.1@, encode_utf8(credentials.password@)) {
                    r matches Ok(c) && c.user_id == stored.0.user_id && c.roles@ == stored.0.roles@
                        && c.valid_totp == stored.0.valid_totp && c.exp == stored.0.exp && c.iat
                        == stored.0.iat
                } else {
                    r == Err::<Ctx, AuthError>(AuthError::InvalidCredentials)
                }
            },
            None => r == Err::<Ctx, AuthError>(AuthError::InvalidCredentials),
        },
{
    match lookup {
        Some((user, stored_hash)) => {
            if argon2_verify(credentials.password.as_str().as_bytes(), stored_hash.as_str()) {
                Ok(user)
            } else {
                Err(AuthError::InvalidCredentials)
            }
        },
        None => {
            let _ = argon2_verify(credentials.password.as_str().as_bytes(), DUMMY_HASH);
            Err(AuthError::InvalidCredentials)
        },
    }
}

} // verus!
