//! The time-based second factor.
//!
//! The code of a secret at a time step is named by `totp_code`; checking a
//! candidate accepts the codes of the current step and of the steps within
//! the configured skew. Secrets come from a cryptographically secure
//! source and are at least 21 bytes.

use vstd::prelude::*;

verus! {

/// Digits of a code.
pub const TOTP_DIGITS: usize = 6;

/// Length of a time step, seconds.
pub const TOTP_STEP_SECS: u64 = 30;

/// Accepted clock skew, in steps each side of the current one.
pub const TOTP_SKEW_STEPS: u8 = 1;

/// Length of a generated secret, bytes.
pub const TOTP_SECRET_LEN: usize = 21;

/// The code of `secret` at time step `step_index` with `digits` digits,
/// under the SHA-1 scheme: a function of the three alone.
pub uninterp spec fn totp_code(secret: Seq<u8>, digits: usize, step_index: u64) -> Seq<char>;

/// The provisioning URL for `secret` under the SHA-1 scheme: a function of
/// secret, digits, step length, issuer and account name alone.
pub uninterp spec fn totp_url_of(
    secret: Seq<u8>,
    digits: usize,
    step: u64,
    issuer: Seq<char>,
    account: Seq<char>,
) -> Seq<char>;

/// The RFC 4648 base32 form of `secret`, without padding: a function of
/// the secret alone.
pub uninterp spec fn base32_nopad(secret: Seq<u8>) -> Seq<char>;

/// Whether `code` is accepted for `secret` at time `time`: it equals the
/// code of some step within `skew` steps of the current one.
pub open spec fn totp_accepts(
    secret: Seq<u8>,
    digits: usize,
    skew: u8,
    step: u64,
    code: Seq<char>,
    time: u64,
) -> bool {
    exists|i: int|
        0 <= i <= 2 * (skew as int) && code == #[trigger] totp_code(
            secret,
            digits,
            ((time / step - skew as u64) + i) as u64,
        )
}

/// Relies on `totp_rs::TOTP::generate` with SHA-1: the code depends only
/// on the secret, the digit count and the step index `time / step`.
#[verifier::external_body]
fn totp_generate_raw(secret: &[u8], digits: usize, step: u64, time: u64) -> (r: String)
    requires
        16 <= secret@.len(),
        6 <= digits <= 8,
        1 <= step,
    ensures
        r@ == totp_code(secret@, digits, time / step),
{
    totp_rs::TOTP::new(
        totp_rs::Algorithm::SHA1,
        digits,
        0,
        step,
        secret.to_vec(),
        None,
        String::new(),
    )
        .unwrap()
        .generate(time)
}

/// Relies on `totp_rs::TOTP::check` with SHA-1: it compares the candidate
/// in constant time against the codes of the steps from `time / step -
/// skew` through `time / step + skew`, and accepts exactly when one
/// matches.
#[verifier::external_body]
fn totp_check_raw(secret: &[u8], digits: usize, skew: u8, step: u64, code: &str, time: u64) -> (r:
    bool)
    requires
        16 <= secret@.len(),
        6 <= digits <= 8,
        1 <= step,
        skew as u64 <= time / step,
        ((time / step) as int + skew as int) * (step as int) <= u64::MAX,
    ensures
        r == totp_accepts(secret@, digits, skew, step, code@, time),
{
    totp_rs::TOTP::new(
        totp_rs::Algorithm::SHA1,
        digits,
        skew,
        step,
        secret.to_vec(),
        None,
        String::new(),
    )
        .unwrap()
        .check(code, time)
}

/// Relies on `totp_rs::TOTP::get_url` with SHA-1: the otpauth URL is a
/// function of secret, digits, step, issuer and account name alone. The
/// names must not contain `:`, which the URL scheme reserves.
#[verifier::external_body]
fn totp_url_raw(secret: &[u8], digits: usize, step: u64, issuer: &str, account: &str) -> (r:
    String)
    requires
        16 <= secret@.len(),
        6 <= digits <= 8,
        1 <= step,
        forall|i: int| 0 <= i < issuer@.len() ==> issuer@[i] != ':',
        forall|i: int| 0 <= i < account@.len() ==> account@[i] != ':',
    ensures
        r@ == totp_url_of(secret@, digits, step, issuer@, account@),
{
    totp_rs::TOTP::new(
        totp_rs::Algorithm::SHA1,
        digits,
        0,
        step,
        secret.to_vec(),
        Some(issuer.to_owned()),
        account.to_owned(),
    )
        .unwrap()
        .get_url()
}

/// Relies on `totp_rs::TOTP::get_secret_base32`: RFC 4648 base32 without
/// padding, a function of the secret bytes alone.
#[verifier::external_body]
fn totp_secret_base32_raw(secret: &[u8]) -> (r: String)
    requires
        16 <= secret@.len(),
    ensures
        r@ == base32_nopad(secret@),
{
    totp_rs::TOTP::new(
        totp_rs::Algorithm::SHA1,
        6,
        0,
        30,
        secret.to_vec(),
        None,
        String::new(),
    )
        .unwrap()
        .get_secret_base32()
}

/// Relies on `rand::random`: one byte from the thread-local
/// cryptographically secure generator; nothing is promised of its value.
#[verifier::external_body]
fn random_byte() -> u8 {
    rand::random::<u8>()
}

/// Draws a fresh secret of the configured length from the secure source.
pub fn gen_totp_secret() -> (r: Vec<u8>)
    ensures
        r@.len() == TOTP_SECRET_LEN,
{
    let mut v: Vec<u8> = Vec::new();
    let mut i: usize = 0;
    while i < TOTP_SECRET_LEN
        invariant
            i <= TOTP_SECRET_LEN,
            v@.len() == i,
        decreases TOTP_SECRET_LEN - i,
    {
        v.push(random_byte());
        i = i + 1;
    }
    v
}

/// Generates the current code for a secret under the configured scheme.
pub fn totp_generate(secret: &[u8], now: u64) -> (r: String)
    requires
        16 <= secret@.len(),
    ensures
        r@ == totp_code(secret@, TOTP_DIGITS, now / TOTP_STEP_SECS),
{
    totp_generate_raw(secret, TOTP_DIGITS, TOTP_STEP_SECS, now)
}

/// Checks a candidate code for a secret at time `now` under the configured
/// scheme: the current step and one step of skew each side.
pub fn totp_verify(secret: &[u8], code: &str, now: u64) -> (r: bool)
    requires
        16 <= secret@.len(),
        TOTP_STEP_SECS <= now,
        now <= 0x7FFFFFFFFFFFFFFF,
    ensures
        r == totp_accepts(secret@, TOTP_DIGITS, TOTP_SKEW_STEPS, TOTP_STEP_SECS, code@, now),
{
    totp_check_raw(secret, TOTP_DIGITS, TOTP_SKEW_STEPS, TOTP_STEP_SECS, code, now)
}

/// The provisioning URL of a secret, labelled with the application name.
pub fn totp_provisioning_url(secret: &[u8], app_name: &str) -> (r: String)
    requires
        16 <= secret@.len(),
        forall|i: int| 0 <= i < app_name@.len() ==> app_name@[i] != ':',
    ensures
        r@ == totp_url_of(secret@, TOTP_DIGITS, TOTP_STEP_SECS, app_name@, app_name@),
{
    totp_url_raw(secret, TOTP_DIGITS, TOTP_STEP_SECS, app_name, app_name)
}

/// The base32 form of a secret, for manual authenticator entry.
pub fn totp_secret_base32(secret: &[u8]) -> (r: String)
    requires
        16 <= secret@.len(),
    ensures
        r@ == base32_nopad(secret@),
{
    totp_secret_base32_raw(secret)
}

/// The code generated at time `t` for a secret is accepted at time `t`:
/// the current step lies in the middle of the check window.
pub proof fn lemma_generated_code_accepted(secret: Seq<u8>, digits: usize, skew: u8, step: u64, t: u64)
    requires
        1 <= step,
        skew as u64 <= t / step,
    ensures
        totp_accepts(secret, digits, skew, step, totp_code(secret, digits, t / step), t),
{
    let i = skew as int;
    assert(0 <= i <= 2 * (skew as int));
    assert(((t / step - skew as u64) + i) as u64 == t / step);
}

} // verus!
