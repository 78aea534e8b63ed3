//! Decimal and hexadecimal byte codecs.
//!
//! Timestamps travel as decimal numbers and user identifiers as hyphenated
//! 32-digit lowercase hex, both defined here together with their parsers
//! and round-trip lemmas.

use vstd::prelude::*;

verus! {

pub open spec fn is_digit(b: u8) -> bool {
    48 <= b <= 57
}

/// Decimal digits of `n`, most significant first, no leading zeros.
pub open spec fn dec_digits(n: nat) -> Seq<u8>
    decreases n,
{
    if n < 10 {
        seq![(48 + n) as u8]
    } else {
        dec_digits(n / 10).push((48 + n % 10) as u8)
    }
}

pub proof fn lemma_dec_digits_shape(n: nat)
    ensures
        dec_digits(n).len() >= 1,
        forall|i: int| 0 <= i < dec_digits(n).len() ==> is_digit(#[trigger] dec_digits(n)[i]),
        dec_digits(n)[0] == 48 <==> n == 0,
    decreases n,
{
    if n >= 10 {
        lemma_dec_digits_shape(n / 10);
        assert(forall|i: int|
            0 <= i < dec_digits(n / 10).len() ==> dec_digits(n)[i] == dec_digits(n / 10)[i]);
    }
}

/// Value of a digit string, accumulated left to right.
pub open spec fn dec_val(s: Seq<u8>) -> int
    decreases s.len(),
{
    if s.len() == 0 {
        0
    } else {
        dec_val(s.drop_last()) * 10 + (s.last() - 48)
    }
}

pub proof fn lemma_dec_val_of_digits(n: nat)
    ensures
        dec_val(dec_digits(n)) == n,
    decreases n,
{
    if n < 10 {
        let d = dec_digits(n);
        assert(d == seq![(48 + n) as u8]);
        assert(d.drop_last() =~= Seq::<u8>::empty());
        assert(dec_val(d.drop_last()) == 0);
        assert(d.last() == (48 + n) as u8);
        assert(dec_val(d) == (48 + n) as u8 - 48);
    } else {
        lemma_dec_val_of_digits(n / 10);
        let d = dec_digits(n);
        assert(d == dec_digits(n / 10).push((48 + n % 10) as u8));
        assert(d.drop_last() =~= dec_digits(n / 10));
        assert(d.last() == (48 + n % 10) as u8);
        assert(dec_val(d) == dec_val(dec_digits(n / 10)) * 10 + ((48 + n % 10) as u8 - 48));
        assert(dec_val(d) == (n / 10) * 10 + n % 10);
        assert((n / 10) * 10 + n % 10 == n) by (nonlinear_arith);
    }
}

pub proof fn lemma_dec_val_nonneg(s: Seq<u8>)
    requires
        forall|i: int| 0 <= i < s.len() ==> is_digit(#[trigger] s[i]),
    ensures
        dec_val(s) >= 0,
    decreases s.len(),
{
    if s.len() > 0 {
        lemma_dec_val_nonneg(s.drop_last());
    }
}

/// A longer digit prefix never has a smaller value.
pub proof fn lemma_dec_val_prefix_le(s: Seq<u8>, m: int)
    requires
        forall|i: int| 0 <= i < s.len() ==> is_digit(#[trigger] s[i]),
        0 <= m <= s.len(),
    ensures
        dec_val(s.take(m)) <= dec_val(s),
    decreases s.len() - m,
{
    if m == s.len() {
        assert(s.take(m) =~= s);
    } else {
        lemma_dec_val_prefix_le(s, m + 1);
        let p = s.take(m + 1);
        assert(p.drop_last() =~= s.take(m));
        lemma_dec_val_nonneg(s.take(m));
        assert(dec_val(s.take(m)) <= dec_val(p));
    }
}

/// Length of the digit run at the head of `s`.
pub open spec fn digit_run_len(s: Seq<u8>) -> int
    decreases s.len(),
{
    if s.len() == 0 || !is_digit(s[0]) {
        0
    } else {
        1 + digit_run_len(s.skip(1))
    }
}

pub proof fn lemma_digit_run_len(s: Seq<u8>, k: int)
    requires
        0 <= k <= s.len(),
        forall|i: int| 0 <= i < k ==> is_digit(#[trigger] s[i]),
        k == s.len() || !is_digit(s[k]),
    ensures
        digit_run_len(s) == k,
    decreases k,
{
    if k == 0 {
    } else {
        assert(forall|i: int| 0 <= i < s.skip(1).len() ==> s.skip(1)[i] == s[i + 1]);
        lemma_digit_run_len(s.skip(1), k - 1);
    }
}

/// Parse of a decimal number at the head of `s`: the maximal digit run,
/// rejected when empty, on a leading zero, or past `u64::MAX`. Returns the
/// value and the run length.
pub open spec fn parse_dec(s: Seq<u8>) -> Option<(u64, int)> {
    let k = digit_run_len(s);
    if k == 0 {
        None
    } else if k > 1 && s[0] == 48 {
        None
    } else if dec_val(s.take(k)) > u64::MAX {
        None
    } else {
        Some((dec_val(s.take(k)) as u64, k))
    }
}

/// The serialization of any `u64` parses back to itself, whatever follows it.
pub proof fn lemma_parse_dec_round_trip(n: u64, rest: Seq<u8>)
    requires
        rest.len() == 0 || !is_digit(rest[0]),
    ensures
        parse_dec(dec_digits(n as nat) + rest) == Some((n, dec_digits(n as nat).len() as int)),
{
    let d = dec_digits(n as nat);
    let s = d + rest;
    lemma_dec_digits_shape(n as nat);
    let k = d.len() as int;
    assert(forall|i: int| 0 <= i < k ==> s[i] == d[i]);
    if k < s.len() {
        assert(s[k] == rest[0]);
    }
    lemma_digit_run_len(s, k);
    assert(s.take(k) =~= d);
    lemma_dec_val_of_digits(n as nat);
    if k > 1 {
        assert(s[0] == d[0]);
        assert(d[0] != 48);
    }
}

/// Formats `n` in decimal.
pub fn u64_to_dec(n: u64) -> (r: Vec<u8>)
    ensures
        r@ == dec_digits(n as nat),
    decreases n,
{
    if n < 10 {
        let mut v: Vec<u8> = Vec::new();
        v.push(48 + (n as u8));
        proof {
            assert(v@ =~= dec_digits(n as nat));
        }
        v
    } else {
        let mut v = u64_to_dec(n / 10);
        v.push(48 + ((n % 10) as u8));
        v
    }
}

/// Parses a decimal number at position `i`; returns the value and the
/// position just past it.
pub fn parse_dec_at(s: &[u8], i: usize) -> (r: Option<(u64, usize)>)
    requires
        i <= s@.len(),
    ensures
        match parse_dec(s@.skip(i as int)) {
            Some(p) => r matches Some(t) && t.0 == p.0 && t.1 == i + p.1 && i <= t.1 <= s@.len(),
            None => r is None,
        },
{
    let ghost suf = s@.skip(i as int);
    let n = s.len();
    let mut j: usize = i;
    while j < n && s[j] >= 48 && s[j] <= 57
        invariant
            i <= j <= n,
            n == s@.len(),
            forall|t: int| i <= t < j ==> is_digit(#[trigger] s@[t]),
        decreases n - j,
    {
        j = j + 1;
    }
    proof {
        assert(forall|t: int| 0 <= t < suf.len() ==> suf[t] == s@[i + t]);
        lemma_digit_run_len(suf, j - i);
    }
    let ghost k = (j - i) as int;
    if j == i {
        return None;
    }
    if j - i > 1 && s[i] == 48 {
        return None;
    }
    let mut val: u64 = 0;
    let mut t: usize = i;
    while t < j
        invariant
            i <= t <= j <= n,
            n == s@.len(),
            forall|u: int| i <= u < j ==> is_digit(#[trigger] s@[u]),
            val == dec_val(s@.subrange(i as int, t as int)),
            dec_val(s@.subrange(i as int, t as int)) <= u64::MAX,
            suf == s@.skip(i as int),
            k == j - i,
            digit_run_len(suf) == k,
        decreases j - t,
    {
        let d: u64 = (s[t] - 48) as u64;
        proof {
            let pre = s@.subrange(i as int, t as int);
            let nxt = s@.subrange(i as int, t + 1);
            assert(nxt.drop_last() =~= pre);
            assert(nxt.last() == s@[t as int]);
        }
        if val > (u64::MAX - d) / 10 {
            proof {
                let nxt = s@.subrange(i as int, t + 1);
                assert(dec_val(nxt) == val * 10 + d);
                assert(val * 10 + d > u64::MAX) by (nonlinear_arith)
                    requires
                        val > (u64::MAX - d) / 10,
                        0 <= d <= 9,
                        val >= 0,
                ;
                assert(forall|u: int| 0 <= u < suf.len() ==> suf[u] == s@[i + u]);
                assert(suf.take(k).take(t + 1 - i) =~= nxt);
                assert(forall|u: int|
                    0 <= u < suf.take(k).len() ==> is_digit(#[trigger] suf.take(k)[u]));
                lemma_dec_val_prefix_le(suf.take(k), t + 1 - i);
                assert(suf.take(k).take(t + 1 - i) == nxt);
                assert(dec_val(suf.take(k)) >= dec_val(nxt));
            }
            return None;
        }
        proof {
            assert(val * 10 + d <= u64::MAX) by (nonlinear_arith)
                requires
                    val <= (u64::MAX - d) / 10,
                    0 <= d <= 9,
                    val >= 0,
            ;
        }
        val = val * 10 + d;
        t = t + 1;
    }
    proof {
        assert(s@.subrange(i as int, j as int) =~= suf.take(k));
    }
    Some((val, j))
}

/// Powers of sixteen.
pub open spec fn pow16(k: nat) -> nat
    decreases k,
{
    if k == 0 {
        1
    } else {
        16 * pow16((k - 1) as nat)
    }
}

pub proof fn lemma_pow16_pos(k: nat)
    ensures
        pow16(k) >= 1,
    decreases k,
{
    if k > 0 {
        lemma_pow16_pos((k - 1) as nat);
    }
}

pub proof fn lemma_pow16_32()
    ensures
        pow16(32) == 0x100000000000000000000000000000000,
{
    reveal_with_fuel(pow16, 33);
}

/// Lowercase hex digit of a nibble value.
pub open spec fn hex_digit(v: u8) -> u8 {
    if v < 10 {
        (48 + v) as u8
    } else {
        (87 + v) as u8
    }
}

/// Nibble value of a lowercase hex digit, if it is one.
pub open spec fn hex_val(b: u8) -> Option<u8> {
    if 48 <= b <= 57 {
        Some((b - 48) as u8)
    } else if 97 <= b <= 102 {
        Some((b - 87) as u8)
    } else {
        None
    }
}

/// The `i`-th nibble of `id`, most significant first, out of 32.
pub open spec fn nibble(id: u128, i: int) -> u8 {
    (((id as nat) / pow16((31 - i) as nat)) % 16) as u8
}

/// Whether position `j` of a 36-byte hyphenated identifier is a hyphen.
pub open spec fn uuid_hyphen_pos(j: int) -> bool {
    j == 8 || j == 13 || j == 18 || j == 23
}

/// Nibble index of a non-hyphen position `j`.
pub open spec fn uuid_nib_index(j: int) -> int {
    if j < 8 {
        j
    } else if j < 13 {
        j - 1
    } else if j < 18 {
        j - 2
    } else if j < 23 {
        j - 3
    } else {
        j - 4
    }
}

/// Hyphenated lowercase-hex form of a 128-bit identifier, 36 bytes.
pub open spec fn uuid_bytes(id: u128) -> Seq<u8> {
    Seq::new(
        36,
        |j: int|
            if uuid_hyphen_pos(j) {
                45u8
            } else {
                hex_digit(nibble(id, uuid_nib_index(j)))
            },
    )
}

/// Value of the first `t` nibbles of the identifier at `s`, hyphens skipped.
pub open spec fn uuid_val_prefix(s: Seq<u8>, t: int) -> int
    decreases t,
{
    if t <= 0 {
        0
    } else {
        let b = hex_val(s[uuid_byte_pos(t - 1)]);
        uuid_val_prefix(s, t - 1) * 16 + (b->0 as int)
    }
}

/// Byte position of the `i`-th nibble in the 36-byte form.
pub open spec fn uuid_byte_pos(i: int) -> int {
    if i < 8 {
        i
    } else if i < 12 {
        i + 1
    } else if i < 16 {
        i + 2
    } else if i < 20 {
        i + 3
    } else {
        i + 4
    }
}

/// Shape of a well-formed 36-byte identifier: hyphens in place, lowercase
/// hex digits everywhere else.
pub open spec fn uuid_shape_ok(s: Seq<u8>) -> bool {
    &&& s.len() == 36
    &&& (forall|j: int| 0 <= j < 36 && uuid_hyphen_pos(j) ==> s[j] == 45u8)
    &&& (forall|j: int| 0 <= j < 36 && !uuid_hyphen_pos(j) ==> hex_val(#[trigger] s[j]) is Some)
}

/// Parse of a 36-byte hyphenated identifier.
pub open spec fn parse_uuid(s: Seq<u8>) -> Option<u128> {
    if uuid_shape_ok(s) && 0 <= uuid_val_prefix(s, 32) < 0x100000000000000000000000000000000 {
        Some(uuid_val_prefix(s, 32) as u128)
    } else {
        None
    }
}

proof fn lemma_div16_chain(id: nat, k: nat)
    ensures
        id / pow16(k) / 16 == id / pow16(k + 1),
{
    lemma_pow16_pos(k);
    vstd::arithmetic::div_mod::lemma_div_denominator(id as int, pow16(k) as int, 16);
    assert(pow16(k) * 16 == pow16(k + 1)) by {
        assert(pow16(k + 1) == 16 * pow16(k));
    }
}

proof fn lemma_uuid_val_step(s: Seq<u8>, id: u128, t: int)
    requires
        0 <= t <= 32,
        forall|i: int|
            0 <= i < 32 ==> hex_val(#[trigger] s[uuid_byte_pos(i)]) == Some(nibble(id, i)),
    ensures
        uuid_val_prefix(s, t) == (id as nat) / pow16((32 - t) as nat),
    decreases t,
{
    if t == 0 {
        lemma_pow16_32();
        assert((id as nat) / pow16(32) == 0) by {
            lemma_pow16_pos(32);
            vstd::arithmetic::div_mod::lemma_basic_div(id as int, pow16(32) as int);
        }
    } else {
        lemma_uuid_val_step(s, id, t - 1);
        let hi = (id as nat) / pow16((32 - t + 1) as nat);
        let x = (id as nat) / pow16((32 - t) as nat);
        lemma_div16_chain(id as nat, (32 - t) as nat);
        assert(x / 16 == hi);
        assert(hex_val(s[uuid_byte_pos(t - 1)]) == Some(nibble(id, t - 1)));
        assert(nibble(id, t - 1) == (x % 16) as u8);
        assert(x == 16 * (x / 16) + x % 16) by (nonlinear_arith);
        assert(uuid_val_prefix(s, t) == hi * 16 + (x % 16));
    }
}

/// The hyphenated form of any identifier parses back to itself.
pub proof fn lemma_parse_uuid_round_trip(id: u128)
    ensures
        parse_uuid(uuid_bytes(id)) == Some(id),
{
    let s = uuid_bytes(id);
    assert forall|j: int| 0 <= j < 36 && !uuid_hyphen_pos(j) implies hex_val(#[trigger] s[j])
        is Some by {
        let v = nibble(id, uuid_nib_index(j));
        assert(v < 16) by {
            lemma_pow16_pos((31 - uuid_nib_index(j)) as nat);
        }
    }
    assert(uuid_shape_ok(s));
    assert forall|i: int| 0 <= i < 32 implies hex_val(#[trigger] s[uuid_byte_pos(i)]) == Some(
        nibble(id, i),
    ) by {
        let j = uuid_byte_pos(i);
        assert(!uuid_hyphen_pos(j));
        assert(uuid_nib_index(j) == i);
        let v = nibble(id, i);
        assert(v < 16) by {
            lemma_pow16_pos((31 - i) as nat);
        }
        assert(hex_val(hex_digit(v)) == Some(v));
    }
    lemma_uuid_val_step(s, id, 32);
    assert(pow16(0) == 1);
    assert((id as nat) / 1 == id as nat) by {
        vstd::arithmetic::div_mod::lemma_div_basics(id as int);
    }
    lemma_pow16_32();
}

/// Formats an identifier as 36 hyphenated lowercase hex bytes.
pub fn u128_to_uuid(id: u128) -> (r: Vec<u8>)
    ensures
        r@ == uuid_bytes(id),
{
    let mut nibs: Vec<u8> = Vec::new();
    let mut t: usize = 0;
    let mut v: u128 = id;
    proof {
        assert(pow16(0) == 1);
        assert((id as nat) / 1 == id as nat) by {
            vstd::arithmetic::div_mod::lemma_div_basics(id as int);
        }
    }
    // collect nibbles least significant first: nibs[t] == nibble(id, 31 - t)
    while t < 32
        invariant
            t <= 32,
            nibs@.len() == t,
            v == (id as nat) / pow16(t as nat),
            forall|u: int| 0 <= u < t ==> nibs@[u] == nibble(id, 31 - u),
        decreases 32 - t,
    {
        let d: u8 = (v % 16) as u8;
        proof {
            assert(nibble(id, 31 - t) == ((id as nat) / pow16(t as nat) % 16) as u8);
            lemma_div16_chain(id as nat, t as nat);
        }
        nibs.push(d);
        v = v / 16;
        t = t + 1;
    }
    let mut out: Vec<u8> = Vec::new();
    let mut j: usize = 0;
    while j < 36
        invariant
            j <= 36,
            out@.len() == j,
            nibs@.len() == 32,
            forall|u: int| 0 <= u < 32 ==> nibs@[u] == nibble(id, 31 - u),
            forall|u: int| 0 <= u < j ==> out@[u] == uuid_bytes(id)[u],
        decreases 36 - j,
    {
        if j == 8 || j == 13 || j == 18 || j == 23 {
            out.push(45);
        } else {
            let ghost i = uuid_nib_index(j as int);
            let ni: usize = if j < 8 {
                j
            } else if j < 13 {
                j - 1
            } else if j < 18 {
                j - 2
            } else if j < 23 {
                j - 3
            } else {
                j - 4
            };
            proof {
                assert(ni == i);
                assert(nibs@[31 - i] == nibble(id, 31 - (31 - i)));
            }
            let d = nibs[31 - ni];
            let b: u8 = if d < 10 {
                48 + d
            } else {
                proof {
                    assert(d < 16) by {
                        lemma_pow16_pos((31 - i) as nat);
                    }
                }
                87 + d
            };
            out.push(b);
        }
        j = j + 1;
    }
    proof {
        assert(out@ =~= uuid_bytes(id));
    }
    out
}

/// Parses a 36-byte hyphenated identifier at position `i`.
pub fn parse_uuid_at(s: &[u8], i: usize) -> (r: Option<u128>)
    requires
        i <= s@.len(),
    ensures
        i + 36 <= s@.len() ==> r == parse_uuid(s@.subrange(i as int, i + 36)),
        i + 36 > s@.len() ==> r is None,
{
    let n = s.len();
    if n - i < 36 {
        return None;
    }
    let ghost sub = s@.subrange(i as int, i + 36);
    // check hyphens
    if !(s[i + 8] == 45 && s[i + 13] == 45 && s[i + 18] == 45 && s[i + 23] == 45) {
        proof {
            assert(sub[8] == s@[i + 8]);
            assert(sub[13] == s@[i + 13]);
            assert(sub[18] == s@[i + 18]);
            assert(sub[23] == s@[i + 23]);
        }
        return None;
    }
    let mut val: u128 = 0;
    let mut t: usize = 0;
    while t < 32
        invariant
            t <= 32,
            i + 36 <= s@.len() <= usize::MAX,
            sub == s@.subrange(i as int, i + 36),
            forall|u: int| 0 <= u < t ==> hex_val(#[trigger] sub[uuid_byte_pos(u)]) is Some,
            val == uuid_val_prefix(sub, t as int),
            val < pow16(t as nat),
        decreases 32 - t,
    {
        let pos: usize = if t < 8 {
            t
        } else if t < 12 {
            t + 1
        } else if t < 16 {
            t + 2
        } else if t < 20 {
            t + 3
        } else {
            t + 4
        };
        proof {
            assert(pos == uuid_byte_pos(t as int));
            assert(sub[pos as int] == s@[i + pos]);
        }
        let b = s[i + pos];
        let d: u8 = if b >= 48 && b <= 57 {
            b - 48
        } else if b >= 97 && b <= 102 {
            b - 87
        } else {
            proof {
                assert(hex_val(sub[uuid_byte_pos(t as int)]) is None);
            }
            return None;
        };
        proof {
            assert(hex_val(sub[uuid_byte_pos(t as int)]) == Some(d));
            assert(d < 16);
            assert(val * 16 + d < pow16(t as nat) * 16) by (nonlinear_arith)
                requires
                    val < pow16(t as nat),
                    d < 16,
                    val >= 0,
            ;
            assert(pow16(t as nat) * 16 == pow16((t + 1) as nat));
            assert(pow16((t + 1) as nat) <= pow16(32)) by {
                lemma_pow16_le((t + 1) as nat, 32);
            }
            lemma_pow16_32();
        }
        val = val * 16 + (d as u128);
        t = t + 1;
    }
    proof {
        assert forall|j: int| 0 <= j < 36 && !uuid_hyphen_pos(j) implies hex_val(
            #[trigger] sub[j],
        ) is Some by {
            let u = uuid_nib_index(j);
            assert(uuid_byte_pos(u) == j);
            assert(hex_val(sub[uuid_byte_pos(u)]) is Some);
        }
        assert(uuid_shape_ok(sub));
    }
    Some(val)
}

pub proof fn lemma_pow16_le(a: nat, b: nat)
    requires
        a <= b,
    ensures
        pow16(a) <= pow16(b),
    decreases b,
{
    if a < b {
        lemma_pow16_le(a, (b - 1) as nat);
        lemma_pow16_pos((b - 1) as nat);
    }
}

} // verus!

