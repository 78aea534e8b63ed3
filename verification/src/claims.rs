//! The signed-token claim set and its JSON wire form.
//!
//! A context serializes to one canonical JSON object,
//! `{"user_id":"...","valid_totp":b,"exp":n,"roles":[...],"iat":n}`, and the
//! parser accepts exactly that form. Field names and types round-trip, so a
//! client verifying the token independently reads the same claims.

use vstd::prelude::*;

verus! {

use crate::bytes::ascii_bytes;
use crate::bytes::ascii_str_bytes;
use crate::bytes::bytes_at;
use crate::bytes::has_bytes_at;
use crate::bytes::push_ascii_str;
use crate::bytes::push_bytes;
use crate::ctx::Ctx;
use crate::numfmt::dec_digits;
use crate::numfmt::is_digit;
use crate::numfmt::lemma_parse_dec_round_trip;
use crate::numfmt::lemma_parse_uuid_round_trip;
use crate::numfmt::parse_dec;
use crate::numfmt::parse_dec_at;
use crate::numfmt::parse_uuid;
use crate::numfmt::parse_uuid_at;
use crate::numfmt::u128_to_uuid;
use crate::numfmt::u64_to_dec;
use crate::role::Role;

pub open spec fn lit_user_id() -> Seq<u8> {
    ascii_bytes("{\"user_id\":\""@)
}

pub open spec fn lit_valid_totp() -> Seq<u8> {
    ascii_bytes("\",\"valid_totp\":"@)
}

pub open spec fn lit_exp() -> Seq<u8> {
    ascii_bytes(",\"exp\":"@)
}

pub open spec fn lit_roles() -> Seq<u8> {
    ascii_bytes(",\"roles\":["@)
}

pub open spec fn lit_iat() -> Seq<u8> {
    ascii_bytes("],\"iat\":"@)
}

pub open spec fn lit_true() -> Seq<u8> {
    ascii_bytes("true"@)
}

pub open spec fn lit_false() -> Seq<u8> {
    ascii_bytes("false"@)
}

/// The bytes of `"Admin"`, quotes included.
pub open spec fn lit_q_admin() -> Seq<u8> {
    seq![34u8, 65u8, 100u8, 109u8, 105u8, 110u8, 34u8]
}

/// The bytes of `"User"`, quotes included.
pub open spec fn lit_q_user() -> Seq<u8> {
    seq![34u8, 85u8, 115u8, 101u8, 114u8, 34u8]
}

pub open spec fn bool_bytes(b: bool) -> Seq<u8> {
    if b {
        lit_true()
    } else {
        lit_false()
    }
}

/// A role as a quoted JSON string.
pub open spec fn role_claim_bytes(r: Role) -> Seq<u8> {
    match r {
        Role::Admin => lit_q_admin(),
        Role::User => lit_q_user(),
    }
}

/// The members of the `roles` array, comma-separated.
pub open spec fn roles_claim_bytes(roles: Seq<Role>) -> Seq<u8>
    decreases roles.len(),
{
    if roles.len() == 0 {
        Seq::empty()
    } else if roles.len() == 1 {
        role_claim_bytes(roles[0])
    } else {
        role_claim_bytes(roles[0]) + seq![44u8] + roles_claim_bytes(roles.skip(1))
    }
}

/// The canonical JSON form of a context's claim set.
pub open spec fn ser_claims(c: Ctx) -> Seq<u8> {
    lit_user_id() + crate::numfmt::uuid_bytes(c.user_id) + lit_valid_totp() + bool_bytes(
        c.valid_totp,
    ) + lit_exp() + dec_digits(c.exp as nat) + lit_roles() + roles_claim_bytes(c.roles@)
        + lit_iat() + dec_digits(c.iat as nat) + seq![125u8]
}

/// Parse of a JSON boolean at the head of `s`.
pub open spec fn parse_bool_at(s: Seq<u8>) -> Option<(bool, int)> {
    if bytes_at(s, 0, lit_true()) {
        Some((true, lit_true().len() as int))
    } else if bytes_at(s, 0, lit_false()) {
        Some((false, lit_false().len() as int))
    } else {
        None
    }
}

/// Parse of a quoted role name at the head of `s`.
pub open spec fn parse_quoted_role(s: Seq<u8>) -> Option<(Role, int)> {
    if bytes_at(s, 0, lit_q_admin()) {
        Some((Role::Admin, 7))
    } else if bytes_at(s, 0, lit_q_user()) {
        Some((Role::User, 6))
    } else {
        None
    }
}

/// Parse of the members of the `roles` array; stops before the closing
/// bracket, rejects a trailing comma.
pub open spec fn parse_roles_claim(s: Seq<u8>) -> Option<(Seq<Role>, int)>
    decreases s.len(),
{
    if s.len() == 0 {
        None
    } else if s[0] == 93 {
        Some((Seq::empty(), 0))
    } else {
        match parse_quoted_role(s) {
            None => None,
            Some((r, k)) => if k < s.len() && s[k] == 44 {
                match parse_roles_claim(s.skip(k + 1)) {
                    None => None,
                    Some((rest, k2)) => if rest.len() > 0 {
                        Some((seq![r] + rest, k + 1 + k2))
                    } else {
                        None
                    },
                }
            } else {
                Some((seq![r], k))
            },
        }
    }
}

/// Parse of the whole claim object: exactly the canonical form, every field
/// in order, nothing after the closing brace. Yields user id, second-factor
/// flag, expiry, roles, issue time.
pub open spec fn parse_claims(s: Seq<u8>) -> Option<(u128, bool, u64, Seq<Role>, u64)> {
    if !bytes_at(s, 0, lit_user_id()) {
        None
    } else {
        let p1 = lit_user_id().len() as int;
        if p1 + 36 > s.len() {
            None
        } else {
            match parse_uuid(s.subrange(p1, p1 + 36)) {
                None => None,
                Some(uid) => {
                    let p2 = p1 + 36;
                    if !bytes_at(s, p2, lit_valid_totp()) {
                        None
                    } else {
                        let p3 = p2 + lit_valid_totp().len();
                        match parse_bool_at(s.skip(p3)) {
                            None => None,
                            Some((vt, k3)) => {
                                let p4 = p3 + k3;
                                if !bytes_at(s, p4, lit_exp()) {
                                    None
                                } else {
                                    let p5 = p4 + lit_exp().len();
                                    match parse_dec(s.skip(p5)) {
                                        None => None,
                                        Some((exp, k5)) => {
                                            let p6 = p5 + k5;
                                            if !bytes_at(s, p6, lit_roles()) {
                                                None
                                            } else {
                                                let p7 = p6 + lit_roles().len();
                                                match parse_roles_claim(s.skip(p7)) {
                                                    None => None,
                                                    Some((roles, k7)) => {
                                                        let p8 = p7 + k7;
                                                        if !bytes_at(s, p8, lit_iat()) {
                                                            None
                                                        } else {
                                                            let p9 = p8 + lit_iat().len();
                                                            match parse_dec(s.skip(p9)) {
                                                                None => None,
                                                                Some((iat, k9)) => {
                                                                    let p10 = p9 + k9;
                                                                    if s.len() == p10 + 1 && s[p10]
                                                                        == 125 {
                                                                        Some(
                                                                            (
                                                                                uid,
                                                                                vt,
                                                                                exp,
                                                                                roles,
                                                                                iat,
                                                                            ),
                                                                        )
                                                                    } else {
                                                                        None
                                                                    }
                                                                },
                                                            }
                                                        }
                                                    },
                                                }
                                            }
                                        },
                                    }
                                }
                            },
                        }
                    }
                },
            }
        }
    }
}

proof fn lemma_roles_claim_snoc(s: Seq<Role>, x: Role)
    ensures
        roles_claim_bytes(s.push(x)) == if s.len() == 0 {
            role_claim_bytes(x)
        } else {
            roles_claim_bytes(s) + seq![44u8] + role_claim_bytes(x)
        },
    decreases s.len(),
{
    if s.len() == 0 {
        assert(s.push(x).len() == 1);
        assert(s.push(x)[0] == x);
    } else if s.len() == 1 {
        assert(s.push(x).skip(1) =~= seq![x]);
        assert(roles_claim_bytes(seq![x]) == role_claim_bytes(x));
        assert(s.push(x)[0] == s[0]);
    } else {
        lemma_roles_claim_snoc(s.skip(1), x);
        assert(s.push(x).skip(1) =~= s.skip(1).push(x));
        assert(s.push(x)[0] == s[0]);
        assert(role_claim_bytes(s[0]) + seq![44u8] + (roles_claim_bytes(s.skip(1)) + seq![44u8]
            + role_claim_bytes(x)) =~= (role_claim_bytes(s[0]) + seq![44u8] + roles_claim_bytes(
            s.skip(1),
        )) + seq![44u8] + role_claim_bytes(x));
    }
}

/// Serializes a context's claim set as canonical JSON bytes.
pub fn claims_to_json(c: &Ctx) -> (r: Vec<u8>)
    ensures
        r@ == ser_claims(*c),
{
    let mut out: Vec<u8> = Vec::new();
    proof {
        reveal_strlit("{\"user_id\":\"");
        reveal_strlit("\",\"valid_totp\":");
        reveal_strlit(",\"exp\":");
        reveal_strlit(",\"roles\":[");
        reveal_strlit("],\"iat\":");
        reveal_strlit("true");
        reveal_strlit("false");
    }
    push_ascii_str(&mut out, "{\"user_id\":\"");
    let uuid = u128_to_uuid(c.user_id);
    push_bytes(&mut out, uuid.as_slice());
    push_ascii_str(&mut out, "\",\"valid_totp\":");
    if c.valid_totp {
        push_ascii_str(&mut out, "true");
    } else {
        push_ascii_str(&mut out, "false");
    }
    push_ascii_str(&mut out, ",\"exp\":");
    let exp = u64_to_dec(c.exp);
    push_bytes(&mut out, exp.as_slice());
    push_ascii_str(&mut out, ",\"roles\":[");
    let ghost mid = out@;
    let mut i: usize = 0;
    while i < c.roles.len()
        invariant
            i <= c.roles@.len(),
            out@ == mid + roles_claim_bytes(c.roles@.subrange(0, i as int)),
        decreases c.roles@.len() - i,
    {
        let ghost pre = c.roles@.subrange(0, i as int);
        if i > 0 {
            out.push(44);
        }
        push_quoted_role(&mut out, c.roles[i]);
        proof {
            lemma_roles_claim_snoc(pre, c.roles@[i as int]);
            assert(pre.push(c.roles@[i as int]) =~= c.roles@.subrange(0, i + 1));
            assert(out@ =~= mid + roles_claim_bytes(c.roles@.subrange(0, i + 1)));
        }
        i = i + 1;
    }
    proof {
        assert(c.roles@.subrange(0, c.roles@.len() as int) =~= c.roles@);
    }
    push_ascii_str(&mut out, "],\"iat\":");
    let iat = u64_to_dec(c.iat);
    push_bytes(&mut out, iat.as_slice());
    out.push(125);
    proof {
        assert(out@ =~= ser_claims(*c));
    }
    out
}

/// Appends a role as a quoted JSON string.
fn push_quoted_role(out: &mut Vec<u8>, r: Role)
    ensures
        final(out)@ == old(out)@ + role_claim_bytes(r),
{
    match r {
        Role::Admin => {
            out.push(34);
            out.push(65);
            out.push(100);
            out.push(109);
            out.push(105);
            out.push(110);
            out.push(34);
            proof {
                assert(out@ =~= old(out)@ + lit_q_admin());
            }
        },
        Role::User => {
            out.push(34);
            out.push(85);
            out.push(115);
            out.push(101);
            out.push(114);
            out.push(34);
            proof {
                assert(out@ =~= old(out)@ + lit_q_user());
            }
        },
    }
}

/// Parses the members of the `roles` array from position `p`; returns the
/// roles and the position of the closing bracket.
fn parse_roles_at(s: &[u8], p: usize) -> (r: Option<(Vec<Role>, usize)>)
    requires
        p <= s@.len(),
    ensures
        match parse_roles_claim(s@.skip(p as int)) {
            Some(t) => r matches Some(v) && v.0@ == t.0 && v.1 == p + t.1 && v.1 <= s@.len(),
            None => r is None,
        },
    decreases s@.len() - p,
{
    let ghost suf = s@.skip(p as int);
    let n = s.len();
    if p == n {
        return None;
    }
    proof {
        assert(suf[0] == s@[p as int]);
    }
    if s[p] == 93 {
        let v: Vec<Role> = Vec::new();
        proof {
            assert(v@ =~= Seq::<Role>::empty());
        }
        return Some((v, p));
    }
    let qa = q_admin_vec();
    let qu = q_user_vec();
    let (role, k): (Role, usize) = if has_bytes_at(s, p, qa.as_slice()) {
        (Role::Admin, 7)
    } else if has_bytes_at(s, p, qu.as_slice()) {
        (Role::User, 6)
    } else {
        proof {
            lemma_bytes_at_shift(s@, p as int, lit_q_admin());
            lemma_bytes_at_shift(s@, p as int, lit_q_user());
        }
        return None;
    };
    proof {
        lemma_bytes_at_shift(s@, p as int, lit_q_admin());
        lemma_bytes_at_shift(s@, p as int, lit_q_user());
        assert(parse_quoted_role(suf) == Some((role, k as int)));
    }
    let p2 = p + k;
    if p2 < n && s[p2] == 44 {
        proof {
            assert(suf[k as int] == s@[p2 as int]);
            assert(suf.skip(k as int + 1) =~= s@.skip(p2 as int + 1));
        }
        match parse_roles_at(s, p2 + 1) {
            None => None,
            Some((mut rest, pend)) => {
                if rest.len() > 0 {
                    rest.insert(0, role);
                    proof {
                        let t = parse_roles_claim(suf).unwrap();
                        assert(rest@ =~= t.0);
                    }
                    Some((rest, pend))
                } else {
                    None
                }
            },
        }
    } else {
        proof {
            if k < suf.len() {
                assert(suf[k as int] == s@[p2 as int]);
            }
        }
        let mut v: Vec<Role> = Vec::new();
        v.push(role);
        proof {
            assert(v@ =~= seq![role]);
        }
        Some((v, p2))
    }
}

/// Moving a prefix check across `skip`.
proof fn lemma_bytes_at_shift(s: Seq<u8>, p: int, lit: Seq<u8>)
    requires
        0 <= p <= s.len(),
    ensures
        bytes_at(s.skip(p), 0, lit) == bytes_at(s, p, lit),
{
    if p + lit.len() <= s.len() {
        assert(s.skip(p).subrange(0, lit.len() as int) =~= s.subrange(p, p + lit.len()));
    }
}

/// The bytes of `"Admin"`.
fn q_admin_vec() -> (r: Vec<u8>)
    ensures
        r@ == lit_q_admin(),
{
    let mut v: Vec<u8> = Vec::new();
    v.push(34);
    v.push(65);
    v.push(100);
    v.push(109);
    v.push(105);
    v.push(110);
    v.push(34);
    proof {
        assert(v@ =~= lit_q_admin());
    }
    v
}

/// The bytes of `"User"`.
fn q_user_vec() -> (r: Vec<u8>)
    ensures
        r@ == lit_q_user(),
{
    let mut v: Vec<u8> = Vec::new();
    v.push(34);
    v.push(85);
    v.push(115);
    v.push(101);
    v.push(114);
    v.push(34);
    proof {
        assert(v@ =~= lit_q_user());
    }
    v
}

/// Parses canonical claim-set JSON into a context. The context's lifetimes
/// are the parsed `iat` and `exp`.
pub fn parse_claims_json(s: &[u8]) -> (r: Option<Ctx>)
    ensures
        match parse_claims(s@) {
            Some(t) => r matches Some(c) && c.user_id == t.0 && c.valid_totp == t.1 && c.exp == t.2
                && c.roles@ == t.3 && c.iat == t.4,
            None => r is None,
        },
{
    proof {
        reveal_strlit("{\"user_id\":\"");
        reveal_strlit("\",\"valid_totp\":");
        reveal_strlit(",\"exp\":");
        reveal_strlit(",\"roles\":[");
        reveal_strlit("],\"iat\":");
        reveal_strlit("true");
        reveal_strlit("false");
    }
    let n = s.len();
    let l_user = ascii_str_bytes("{\"user_id\":\"");
    if !has_bytes_at(s, 0, l_user.as_slice()) {
        return None;
    }
    let p1 = l_user.len();
    proof {
        assert(p1 == lit_user_id().len());
    }
    if n - p1 < 36 {
        return None;
    }
    let uid = match parse_uuid_at(s, p1) {
        Some(u) => u,
        None => {
            return None;
        },
    };
    let p2 = p1 + 36;
    let l_vt = ascii_str_bytes("\",\"valid_totp\":");
    if !has_bytes_at(s, p2, l_vt.as_slice()) {
        return None;
    }
    let p3 = p2 + l_vt.len();
    proof {
        lemma_bytes_at_shift(s@, p3 as int, lit_true());
        lemma_bytes_at_shift(s@, p3 as int, lit_false());
    }
    let l_true = ascii_str_bytes("true");
    let l_false = ascii_str_bytes("false");
    let (vt, p4): (bool, usize) = if has_bytes_at(s, p3, l_true.as_slice()) {
        (true, p3 + l_true.len())
    } else if has_bytes_at(s, p3, l_false.as_slice()) {
        (false, p3 + l_false.len())
    } else {
        return None;
    };
    let l_exp = ascii_str_bytes(",\"exp\":");
    if !has_bytes_at(s, p4, l_exp.as_slice()) {
        return None;
    }
    let p5 = p4 + l_exp.len();
    let (exp, p6) = match parse_dec_at(s, p5) {
        Some(t) => t,
        None => {
            return None;
        },
    };
    let l_roles = ascii_str_bytes(",\"roles\":[");
    if !has_bytes_at(s, p6, l_roles.as_slice()) {
        return None;
    }
    let p7 = p6 + l_roles.len();
    let (roles, p8) = match parse_roles_at(s, p7) {
        Some(t) => t,
        None => {
            return None;
        },
    };
    let l_iat = ascii_str_bytes("],\"iat\":");
    if !has_bytes_at(s, p8, l_iat.as_slice()) {
        return None;
    }
    let p9 = p8 + l_iat.len();
    let (iat, p10) = match parse_dec_at(s, p9) {
        Some(t) => t,
        None => {
            return None;
        },
    };
    if !(p10 < n && n - p10 == 1 && s[p10] == 125) {
        return None;
    }
    Some(Ctx { user_id: uid, valid_totp: vt, exp, roles, iat })
}

/// The canonical serialization of any context parses back to the same
/// claim values.
pub proof fn lemma_claims_round_trip(c: Ctx)
    ensures
        parse_claims(ser_claims(c)) == Some((c.user_id, c.valid_totp, c.exp, c.roles@, c.iat)),
{
    reveal_strlit("{\"user_id\":\"");
    reveal_strlit("\",\"valid_totp\":");
    reveal_strlit(",\"exp\":");
    reveal_strlit(",\"roles\":[");
    reveal_strlit("],\"iat\":");
    reveal_strlit("true");
    reveal_strlit("false");
    let s = ser_claims(c);
    let a1 = lit_user_id();
    let a2 = crate::numfmt::uuid_bytes(c.user_id);
    let a3 = lit_valid_totp();
    let a4 = bool_bytes(c.valid_totp);
    let a5 = lit_exp();
    let a6 = dec_digits(c.exp as nat);
    let a7 = lit_roles();
    let a8 = roles_claim_bytes(c.roles@);
    let a9 = lit_iat();
    let a10 = dec_digits(c.iat as nat);
    let a11 = seq![125u8];
    assert(s =~= a1 + (a2 + (a3 + (a4 + (a5 + (a6 + (a7 + (a8 + (a9 + (a10 + a11))))))))));
    lemma_parse_prefix_chain(c, s, a1, a2, a3, a4, a5, a6, a7, a8, a9, a10, a11);
}

proof fn lemma_chain_head(
    c: Ctx,
    s: Seq<u8>,
    a1: Seq<u8>,
    a2: Seq<u8>,
    a3: Seq<u8>,
    a4: Seq<u8>,
    a5: Seq<u8>,
    a6: Seq<u8>,
    a7: Seq<u8>,
    a8: Seq<u8>,
    a9: Seq<u8>,
    a10: Seq<u8>,
    a11: Seq<u8>,
)
    requires
        a1 == lit_user_id(),
        a2 == crate::numfmt::uuid_bytes(c.user_id),
        a3 == lit_valid_totp(),
        a4 == bool_bytes(c.valid_totp),
        a5 == lit_exp(),
        a6 == dec_digits(c.exp as nat),
        a7 == lit_roles(),
        a8 == roles_claim_bytes(c.roles@),
        a9 == lit_iat(),
        a10 == dec_digits(c.iat as nat),
        a11 == seq![125u8],
        s == a1 + (a2 + (a3 + (a4 + (a5 + (a6 + (a7 + (a8 + (a9 + (a10 + a11))))))))),
    ensures
        bytes_at(s, 0, a1),
        a2.len() == 36,
        parse_uuid(s.subrange(a1.len() as int, (a1.len() + 36) as int)) == Some(c.user_id),
        bytes_at(s, (a1.len() + 36) as int, a3),
        parse_bool_at(s.skip((a1.len() + 36 + a3.len()) as int)) == Some(
            (c.valid_totp, a4.len() as int),
        ),
        bytes_at(s, (a1.len() + 36 + a3.len() + a4.len()) as int, a5),
        parse_dec(s.skip((a1.len() + 36 + a3.len() + a4.len() + a5.len()) as int)) == Some(
            (c.exp, a6.len() as int),
        ),
{
    reveal_strlit(",\"exp\":");
    reveal_strlit(",\"roles\":[");
    // the object prefix
    assert(s.subrange(0, a1.len() as int) =~= a1);
    let p1 = a1.len() as int;
    // the user id
    assert(a2.len() == 36);
    assert(s.subrange(p1, p1 + 36) =~= a2);
    lemma_parse_uuid_round_trip(c.user_id);
    let p2 = p1 + 36;
    // the valid_totp key
    assert(s.subrange(p2, p2 + a3.len()) =~= a3);
    let p3 = p2 + a3.len();
    // the boolean
    let r4 = a5 + (a6 + (a7 + (a8 + (a9 + (a10 + a11)))));
    assert(s.skip(p3) =~= a4 + r4);
    lemma_parse_bool_round_trip(c.valid_totp, r4);
    let p4 = p3 + a4.len();
    // the exp key
    assert(s.subrange(p4, p4 + a5.len()) =~= a5);
    let p5 = p4 + a5.len();
    // the expiry number; a comma follows its digits
    let r6 = a7 + (a8 + (a9 + (a10 + a11)));
    assert(s.skip(p5) =~= a6 + r6);
    assert(r6[0] == a7[0]);
    assert(a7[0] == ',' as u8);
    lemma_parse_dec_round_trip(c.exp, r6);
}

#[verifier::rlimit(100)]
proof fn lemma_chain_tail(
    c: Ctx,
    s: Seq<u8>,
    a1: Seq<u8>,
    a2: Seq<u8>,
    a3: Seq<u8>,
    a4: Seq<u8>,
    a5: Seq<u8>,
    a6: Seq<u8>,
    a7: Seq<u8>,
    a8: Seq<u8>,
    a9: Seq<u8>,
    a10: Seq<u8>,
    a11: Seq<u8>,
)
    requires
        a1 == lit_user_id(),
        a2 == crate::numfmt::uuid_bytes(c.user_id),
        a3 == lit_valid_totp(),
        a4 == bool_bytes(c.valid_totp),
        a5 == lit_exp(),
        a6 == dec_digits(c.exp as nat),
        a7 == lit_roles(),
        a8 == roles_claim_bytes(c.roles@),
        a9 == lit_iat(),
        a10 == dec_digits(c.iat as nat),
        a11 == seq![125u8],
        s == a1 + (a2 + (a3 + (a4 + (a5 + (a6 + (a7 + (a8 + (a9 + (a10 + a11))))))))),
    ensures
        bytes_at(s, (a1.len() + 36 + a3.len() + a4.len() + a5.len() + a6.len()) as int, a7),
        parse_roles_claim(
            s.skip((a1.len() + 36 + a3.len() + a4.len() + a5.len() + a6.len() + a7.len()) as int),
        ) == Some((c.roles@, a8.len() as int)),
        bytes_at(
            s,
            (a1.len() + 36 + a3.len() + a4.len() + a5.len() + a6.len() + a7.len()
                + a8.len()) as int,
            a9,
        ),
        parse_dec(
            s.skip(
                (a1.len() + 36 + a3.len() + a4.len() + a5.len() + a6.len() + a7.len() + a8.len()
                    + a9.len()) as int,
            ),
        ) == Some((c.iat, a10.len() as int)),
        s.len() == a1.len() + 36 + a3.len() + a4.len() + a5.len() + a6.len() + a7.len() + a8.len()
            + a9.len() + a10.len() + 1,
        s[s.len() - 1] == 125u8,
{
    reveal_strlit("],\"iat\":");
    assert(a2.len() == 36);
    let p6 = (a1.len() + 36 + a3.len() + a4.len() + a5.len() + a6.len()) as int;
    // the roles key
    assert(s.subrange(p6, p6 + a7.len()) =~= a7);
    let p7 = p6 + a7.len();
    // the role list; a bracket follows it
    let r8 = a9 + (a10 + a11);
    assert(s.skip(p7) =~= a8 + r8);
    assert(r8[0] == a9[0]);
    assert(a9[0] == ']' as u8);
    lemma_parse_roles_round_trip(c.roles@, r8);
    let p8 = p7 + a8.len();
    // the iat key
    assert(s.subrange(p8, p8 + a9.len()) =~= a9);
    let p9 = p8 + a9.len();
    // the issue time; the closing brace follows its digits
    assert(s.skip(p9) =~= a10 + a11);
    assert(a11[0] == 125u8);
    lemma_parse_dec_round_trip(c.iat, a11);
    let p10 = p9 + a10.len();
    assert(s.len() == p10 + 1);
    assert(s[p10] == 125u8);
}

#[verifier::rlimit(100)]
proof fn lemma_parse_prefix_chain(
    c: Ctx,
    s: Seq<u8>,
    a1: Seq<u8>,
    a2: Seq<u8>,
    a3: Seq<u8>,
    a4: Seq<u8>,
    a5: Seq<u8>,
    a6: Seq<u8>,
    a7: Seq<u8>,
    a8: Seq<u8>,
    a9: Seq<u8>,
    a10: Seq<u8>,
    a11: Seq<u8>,
)
    requires
        a1 == lit_user_id(),
        a2 == crate::numfmt::uuid_bytes(c.user_id),
        a3 == lit_valid_totp(),
        a4 == bool_bytes(c.valid_totp),
        a5 == lit_exp(),
        a6 == dec_digits(c.exp as nat),
        a7 == lit_roles(),
        a8 == roles_claim_bytes(c.roles@),
        a9 == lit_iat(),
        a10 == dec_digits(c.iat as nat),
        a11 == seq![125u8],
        s == a1 + (a2 + (a3 + (a4 + (a5 + (a6 + (a7 + (a8 + (a9 + (a10 + a11))))))))),
    ensures
        parse_claims(s) == Some((c.user_id, c.valid_totp, c.exp, c.roles@, c.iat)),
{
    lemma_chain_head(c, s, a1, a2, a3, a4, a5, a6, a7, a8, a9, a10, a11);
    lemma_chain_tail(c, s, a1, a2, a3, a4, a5, a6, a7, a8, a9, a10, a11);
    let p1 = a1.len() as int;
    let p2 = p1 + 36;
    let p3 = p2 + a3.len();
    let p4 = p3 + a4.len();
    let p5 = p4 + a5.len();
    let p6 = p5 + a6.len();
    let p7 = p6 + a7.len();
    let p8 = p7 + a8.len();
    let p9 = p8 + a9.len();
    let p10 = p9 + a10.len();
    assert(p1 + 36 <= s.len());
    assert(s.len() == p10 + 1);
    assert(s[p10] == 125u8);
    assert(parse_claims(s) == Some((c.user_id, c.valid_totp, c.exp, c.roles@, c.iat)));
}

proof fn lemma_parse_bool_round_trip(b: bool, rest: Seq<u8>)
    ensures
        parse_bool_at(bool_bytes(b) + rest) == Some((b, bool_bytes(b).len() as int)),
{
    reveal_strlit("true");
    reveal_strlit("false");
    let s = bool_bytes(b) + rest;
    if b {
        assert(s.subrange(0, lit_true().len() as int) =~= lit_true());
    } else {
        assert(s.subrange(0, lit_false().len() as int) =~= lit_false());
        if bytes_at(s, 0, lit_true()) {
            assert(s.subrange(0, lit_true().len() as int)[0] == s[0]);
            assert(s[0] == lit_false()[0]);
            assert(lit_false()[0] == 'f' as u8);
            assert(lit_true()[0] == 't' as u8);
            assert(false);
        }
    }
}

proof fn lemma_parse_quoted_role_round_trip(r: Role, rest: Seq<u8>)
    ensures
        parse_quoted_role(role_claim_bytes(r) + rest) == Some(
            (r, role_claim_bytes(r).len() as int),
        ),
{
    let s = role_claim_bytes(r) + rest;
    match r {
        Role::Admin => {
            assert(s.subrange(0, 7) =~= lit_q_admin());
        },
        Role::User => {
            assert(s.subrange(0, 6) =~= lit_q_user());
            if bytes_at(s, 0, lit_q_admin()) {
                assert(s.subrange(0, 7)[1] == s[1]);
                assert(s[1] == lit_q_user()[1]);
                assert(false);
            }
        },
    }
}

proof fn lemma_parse_roles_round_trip(roles: Seq<Role>, rest: Seq<u8>)
    requires
        rest.len() > 0,
        rest[0] == 93u8,
    ensures
        parse_roles_claim(roles_claim_bytes(roles) + rest) == Some(
            (roles, roles_claim_bytes(roles).len() as int),
        ),
    decreases roles.len(),
{
    let s = roles_claim_bytes(roles) + rest;
    if roles.len() == 0 {
        assert(s =~= rest);
        assert(parse_roles_claim(s) == Some((Seq::<Role>::empty(), 0int)));
        assert(roles =~= Seq::<Role>::empty());
    } else if roles.len() == 1 {
        let r = roles[0];
        assert(roles_claim_bytes(roles) == role_claim_bytes(r));
        lemma_parse_quoted_role_round_trip(r, rest);
        let k = role_claim_bytes(r).len() as int;
        assert(s[0] == role_claim_bytes(r)[0]);
        assert(s[0] == 34u8);
        assert(s[k] == rest[0]);
        assert(s[k] != 44u8);
        assert(parse_roles_claim(s) == Some((seq![r], k)));
        assert(seq![r] =~= roles);
        assert(k == 7 || k == 6);
    } else {
        let r = roles[0];
        let tail = roles.skip(1);
        let tb = roles_claim_bytes(tail);
        assert(roles_claim_bytes(roles) == role_claim_bytes(r) + seq![44u8] + tb);
        let k = role_claim_bytes(r).len() as int;
        assert(s =~= role_claim_bytes(r) + (seq![44u8] + (tb + rest)));
        lemma_parse_quoted_role_round_trip(r, seq![44u8] + (tb + rest));
        assert(s[0] == role_claim_bytes(r)[0]);
        assert(s[0] == 34u8);
        assert(s[k] == 44u8);
        assert(s.skip(k + 1) =~= tb + rest);
        lemma_parse_roles_round_trip(tail, rest);
        assert(parse_roles_claim(s.skip(k + 1)) == Some((tail, tb.len() as int)));
        assert(tail.len() > 0);
        assert(seq![r] + tail =~= roles);
        assert(k == 7 || k == 6);
        assert(parse_roles_claim(s) == Some((roles, k + 1 + tb.len())));
        assert(roles_claim_bytes(roles).len() == k + 1 + tb.len());
    }
}

} // verus!
