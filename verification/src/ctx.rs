//! The identity context: the authenticated identity and claims record of a
//! request.
//!
//! A context is built from a verified credential and never mutated in place
//! for a request; re-issuing stamps fresh lifetimes. The zero user id
//! denotes "no identity" and is never a valid authenticated user.

use vstd::prelude::*;

verus! {

use crate::role::Role;

/// Lifetime of an access credential, in seconds.
pub const AUTH_TTL_SECS: u64 = 3600;

/// Lifetime of a refresh credential, in seconds: thirty days.
pub const REFRESH_TTL_SECS: u64 = 30 * 86400;

/// The authenticated-identity record carried by a credential.
#[derive(Clone, Debug)]
pub struct Ctx {
    /// Stable unique identifier; zero denotes "no identity".
    pub user_id: u128,
    /// Whether the second factor has been proven for this credential lineage.
    pub valid_totp: bool,
    /// Expiry timestamp, seconds.
    pub exp: u64,
    /// Role tags of the identity.
    pub roles: Vec<Role>,
    /// Issue timestamp, seconds.
    pub iat: u64,
}

/// Whether a role list carries the admin role.
pub open spec fn has_admin(roles: Seq<Role>) -> bool {
    exists|i: int| 0 <= i < roles.len() && roles[i] == Role::Admin
}

/// A context is valid at `now` when it names an identity and `now` lies
/// within its lifetime.
pub open spec fn ctx_valid_at(c: Ctx, now: u64) -> bool {
    &&& c.user_id != 0
    &&& c.iat <= now <= c.exp
}

impl Ctx {
    /// A context for `user_id` with the given roles and no lifetime yet.
    pub fn new(user_id: u128, roles: Vec<Role>) -> (r: Ctx)
        ensures
            r.user_id == user_id,
            r.roles@ == roles@,
            r.valid_totp == false,
            r.exp == 0,
            r.iat == 0,
    {
        Ctx { user_id, valid_totp: false, exp: 0, roles, iat: 0 }
    }

    /// A context names an identity exactly when its user id is non-zero.
    pub fn valid(&self) -> (r: bool)
        ensures
            r == (self.user_id != 0),
    {
        self.user_id != 0
    }

    /// Whether the context carries the admin role.
    pub fn is_admin(&self) -> (r: bool)
        ensures
            r == has_admin(self.roles@),
    {
        let mut i: usize = 0;
        while i < self.roles.len()
            invariant
                i <= self.roles@.len(),
                forall|j: int| 0 <= j < i ==> self.roles@[j] != Role::Admin,
            decreases self.roles@.len() - i,
        {
            if self.roles[i] == Role::Admin {
                return true;
            }
            i = i + 1;
        }
        false
    }

    /// Records whether the second factor is satisfied; all other fields keep
    /// their values.
    pub fn with_valid_totp(&mut self, totp_status: bool)
        ensures
            final(self).valid_totp == totp_status,
            final(self).user_id == old(self).user_id,
            final(self).roles@ == old(self).roles@,
            final(self).exp == old(self).exp,
            final(self).iat == old(self).iat,
    {
        self.valid_totp = totp_status;
    }

    /// Stamps refresh-credential lifetimes: issued now, expiring thirty days
    /// later.
    pub fn as_refresh(&mut self, now: u64)
        requires
            now + REFRESH_TTL_SECS <= u64::MAX,
        ensures
            final(self).iat == now,
            final(self).exp == now + REFRESH_TTL_SECS,
            final(self).user_id == old(self).user_id,
            final(self).roles@ == old(self).roles@,
            final(self).valid_totp == old(self).valid_totp,
    {
        self.exp = now + REFRESH_TTL_SECS;
        self.iat = now;
    }

    /// Stamps access-credential lifetimes: issued now, expiring one hour
    /// later.
    pub fn as_auth(&mut self, now: u64)
        requires
            now + AUTH_TTL_SECS <= u64::MAX,
        ensures
            final(self).iat == now,
            final(self).exp == now + AUTH_TTL_SECS,
            final(self).user_id == old(self).user_id,
            final(self).roles@ == old(self).roles@,
            final(self).valid_totp == old(self).valid_totp,
    {
        self.exp = now + AUTH_TTL_SECS;
        self.iat = now;
    }

    /// Replaces the identity with a stored user's id and roles.
    pub fn with_user(&mut self, user_id: u128, roles: Vec<Role>)
        ensures
            final(self).user_id == user_id,
            final(self).roles@ == roles@,
            final(self).valid_totp == old(self).valid_totp,
            final(self).exp == old(self).exp,
            final(self).iat == old(self).iat,
    {
        self.user_id = user_id;
        self.roles = roles;
    }

    /// A field-for-field copy.
    pub fn dup(&self) -> (r: Ctx)
        ensures
            r.user_id == self.user_id,
            r.valid_totp == self.valid_totp,
            r.exp == self.exp,
            r.iat == self.iat,
            r.roles@ == self.roles@,
    {
        let mut roles: Vec<Role> = Vec::new();
        let mut i: usize = 0;
        while i < self.roles.len()
            invariant
                i <= self.roles@.len(),
                roles@ == self.roles@.subrange(0, i as int),
            decreases self.roles@.len() - i,
        {
            roles.push(self.roles[i]);
            proof {
                assert(roles@ =~= self.roles@.subrange(0, i + 1));
            }
            i = i + 1;
        }
        proof {
            assert(self.roles@.subrange(0, self.roles@.len() as int) =~= self.roles@);
        }
        Ctx { user_id: self.user_id, valid_totp: self.valid_totp, exp: self.exp, roles, iat: self.iat }
    }
}

impl Default for Ctx {
    /// The anonymous context: no identity, no roles, no lifetime.
    fn default() -> (r: Ctx)
        ensures
            r.user_id == 0,
            r.valid_totp == false,
            r.exp == 0,
            r.iat == 0,
            r.roles@ == Seq::<Role>::empty(),
    {
        Ctx { user_id: 0, valid_totp: false, exp: 0, roles: Vec::new(), iat: 0 }
    }
}

} // verus!
