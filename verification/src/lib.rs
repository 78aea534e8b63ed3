//! Verified authentication core of a small web backend.
//!
//! The crate models the identity context carried by every request, issues
//! and resolves signed transport credentials, checks password strength,
//! wraps the memory-hard password hasher and the TOTP second factor, and
//! decides the request gates (authenticated, admin, second factor). I/O,
//! routing and storage stay outside; handlers pass plain values in and out.

pub mod b64;
pub mod bytes;
pub mod claims;
pub mod configuration;
pub mod ctx;
pub mod error;
pub mod flows;
pub mod gates;
pub mod hmac;
pub mod numfmt;
pub mod password;
pub mod role;
pub mod token;
pub mod totp;

