//! The access gates: ordered, independent predicates over the resolved
//! context.
//!
//! Each gate either passes the request on (`None`) or rejects it with a
//! status: 401 when the identity is unknown or invalid, 403 when it is
//! known but lacks the required privilege.

use vstd::prelude::*;

verus! {

use crate::ctx::Ctx;
use crate::ctx::has_admin;
use crate::error::AuthError;
use crate::token::CtxExtError;

/// Require-authenticated: the resolution must have produced a context.
pub fn gate_require(ctx_res: &Result<Ctx, CtxExtError>) -> (r: Option<u16>)
    ensures
        r == if ctx_res is Ok {
            None::<u16>
        } else {
            Some(401u16)
        },
{
    match ctx_res {
        Ok(_) => None,
        Err(_) => Some(401),
    }
}

/// Require-admin: the context must carry the admin role.
pub fn gate_admin(ctx: &Ctx) -> (r: Option<u16>)
    ensures
        r == if has_admin(ctx.roles@) {
            None::<u16>
        } else {
            Some(401u16)
        },
{
    if ctx.is_admin() {
        None
    } else {
        Some(401)
    }
}

/// Require-totp-satisfied: the second factor must be proven for this
/// credential lineage; a known identity without it is rejected with 403,
/// not 401.
pub fn gate_totp(ctx: &Ctx) -> (r: Option<u16>)
    ensures
        r == if ctx.valid_totp {
            None::<u16>
        } else {
            Some(403u16)
        },
{
    if ctx.valid_totp {
        None
    } else {
        Some(403)
    }
}

/// The active-account gate, applied to the stored flag of the resolved
/// identity: only a record that exists and is active passes.
pub fn gate_active(active: Option<bool>) -> (r: Result<(), AuthError>)
    ensures
        r == if active == Some(true) {
            Ok::<(), AuthError>(())
        } else {
            Err::<(), AuthError>(AuthError::InactiveUser)
        },
{
    match active {
        Some(true) => Ok(()),
        _ => Err(AuthError::InactiveUser),
    }
}

} // verus!
