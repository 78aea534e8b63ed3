//! Base64url codec, unpadded, as used by the token framing.
//!
//! Encoding and decoding are defined over byte sequences; the decoder is
//! strict (it rejects stray trailing bits), and decoding inverts encoding.

use vstd::prelude::*;

verus! {

/// The base64url alphabet: the character of a 6-bit value.
pub open spec fn b64_char(v: int) -> u8 {
    if v < 26 {
        (65 + v) as u8  // 'A'..'Z'
    } else if v < 52 {
        (97 + (v - 26)) as u8  // 'a'..'z'
    } else if v < 62 {
        (48 + (v - 52)) as u8  // '0'..'9'
    } else if v == 62 {
        45u8  // '-'
    } else {
        95u8  // '_'
    }
}

/// The 6-bit value of an alphabet character, if it is one.
pub open spec fn b64_inv(c: u8) -> Option<u8> {
    if 65 <= c <= 90 {
        Some((c - 65) as u8)
    } else if 97 <= c <= 122 {
        Some((c - 97 + 26) as u8)
    } else if 48 <= c <= 57 {
        Some((c - 48 + 52) as u8)
    } else if c == 45 {
        Some(62u8)
    } else if c == 95 {
        Some(63u8)
    } else {
        None
    }
}

pub proof fn lemma_b64_char_inv(v: int)
    requires
        0 <= v < 64,
    ensures
        b64_inv(b64_char(v)) == Some(v as u8),
{
}

/// Base64url encoding, three input bytes to four characters, the final one
/// or two bytes to two or three characters.
pub open spec fn b64_encode(s: Seq<u8>) -> Seq<u8>
    decreases s.len(),
{
    if s.len() == 0 {
        Seq::empty()
    } else if s.len() == 1 {
        let b0 = s[0] as int;
        seq![b64_char(b0 / 4), b64_char((b0 % 4) * 16)]
    } else if s.len() == 2 {
        let b0 = s[0] as int;
        let b1 = s[1] as int;
        seq![b64_char(b0 / 4), b64_char((b0 % 4) * 16 + b1 / 16), b64_char((b1 % 16) * 4)]
    } else {
        let b0 = s[0] as int;
        let b1 = s[1] as int;
        let b2 = s[2] as int;
        seq![
            b64_char(b0 / 4),
            b64_char((b0 % 4) * 16 + b1 / 16),
            b64_char((b1 % 16) * 4 + b2 / 64),
            b64_char(b2 % 64),
        ] + b64_encode(s.skip(3))
    }
}

/// Strict base64url decoding: inverse of `b64_encode`, `None` on any
/// character outside the alphabet, a lone trailing character, or non-zero
/// trailing bits.
pub open spec fn b64_decode(s: Seq<u8>) -> Option<Seq<u8>>
    decreases s.len(),
{
    if s.len() == 0 {
        Some(Seq::empty())
    } else if s.len() == 1 {
        None
    } else if s.len() == 2 {
        match (b64_inv(s[0]), b64_inv(s[1])) {
            (Some(c0), Some(c1)) => if c1 % 16 == 0 {
                Some(seq![(c0 * 4 + c1 / 16) as u8])
            } else {
                None
            },
            _ => None,
        }
    } else if s.len() == 3 {
        match (b64_inv(s[0]), b64_inv(s[1]), b64_inv(s[2])) {
            (Some(c0), Some(c1), Some(c2)) => if c2 % 4 == 0 {
                Some(seq![(c0 * 4 + c1 / 16) as u8, ((c1 % 16) * 16 + c2 / 4) as u8])
            } else {
                None
            },
            _ => None,
        }
    } else {
        match (b64_inv(s[0]), b64_inv(s[1]), b64_inv(s[2]), b64_inv(s[3])) {
            (Some(c0), Some(c1), Some(c2), Some(c3)) => match b64_decode(s.skip(4)) {
                Some(rest) => Some(
                    seq![
                        (c0 * 4 + c1 / 16) as u8,
                        ((c1 % 16) * 16 + c2 / 4) as u8,
                        ((c2 % 4) * 64 + c3) as u8,
                    ] + rest,
                ),
                None => None,
            },
            _ => None,
        }
    }
}

/// Decoding inverts encoding.
pub proof fn lemma_b64_round_trip(s: Seq<u8>)
    ensures
        b64_decode(b64_encode(s)) == Some(s),
    decreases s.len(),
{
    if s.len() == 0 {
        assert(b64_encode(s) =~= Seq::<u8>::empty());
        assert(b64_decode(b64_encode(s)).unwrap() =~= s);
    } else if s.len() == 1 {
        let b0 = s[0] as int;
        lemma_b64_char_inv(b0 / 4);
        lemma_b64_char_inv((b0 % 4) * 16);
        let e = b64_encode(s);
        assert(e.len() == 2);
        assert(b64_inv(e[0]) == Some((b0 / 4) as u8));
        assert(b64_inv(e[1]) == Some(((b0 % 4) * 16) as u8));
        assert(((b0 % 4) * 16) % 16 == 0);
        assert((b0 / 4) * 4 + ((b0 % 4) * 16) / 16 == b0);
        assert(b64_decode(e).unwrap() =~= s);
    } else if s.len() == 2 {
        let b0 = s[0] as int;
        let b1 = s[1] as int;
        lemma_b64_char_inv(b0 / 4);
        lemma_b64_char_inv((b0 % 4) * 16 + b1 / 16);
        lemma_b64_char_inv((b1 % 16) * 4);
        let e = b64_encode(s);
        assert(e.len() == 3);
        let c0 = (b0 / 4) as int;
        let c1 = ((b0 % 4) * 16 + b1 / 16) as int;
        let c2 = ((b1 % 16) * 4) as int;
        assert(c2 % 4 == 0);
        assert(c1 / 16 == b0 % 4);
        assert(c1 % 16 == b1 / 16);
        assert(c0 * 4 + c1 / 16 == b0);
        assert((c1 % 16) * 16 + c2 / 4 == b1);
        assert(b64_decode(e).unwrap() =~= s);
    } else {
        let b0 = s[0] as int;
        let b1 = s[1] as int;
        let b2 = s[2] as int;
        lemma_b64_char_inv(b0 / 4);
        lemma_b64_char_inv((b0 % 4) * 16 + b1 / 16);
        lemma_b64_char_inv((b1 % 16) * 4 + b2 / 64);
        lemma_b64_char_inv(b2 % 64);
        lemma_b64_round_trip(s.skip(3));
        let e = b64_encode(s);
        let rest = b64_encode(s.skip(3));
        assert(e.len() == 4 + rest.len());
        assert(e.skip(4) =~= rest);
        let c0 = b0 / 4;
        let c1 = (b0 % 4) * 16 + b1 / 16;
        let c2 = (b1 % 16) * 4 + b2 / 64;
        let c3 = b2 % 64;
        assert(b64_inv(e[0]) == Some(c0 as u8));
        assert(b64_inv(e[1]) == Some(c1 as u8));
        assert(b64_inv(e[2]) == Some(c2 as u8));
        assert(b64_inv(e[3]) == Some(c3 as u8));
        assert(c1 / 16 == b0 % 4);
        assert(c1 % 16 == b1 / 16);
        assert(c2 / 4 == b1 % 16);
        assert(c2 % 4 == b2 / 64);
        assert(c0 * 4 + c1 / 16 == b0);
        assert((c1 % 16) * 16 + c2 / 4 == b1);
        assert((c2 % 4) * 64 + c3 == b2);
        assert(b64_decode(e).unwrap() =~= seq![s[0], s[1], s[2]] + s.skip(3));
        assert(seq![s[0], s[1], s[2]] + s.skip(3) =~= s);
    }
}

/// No alphabet character is the token separator `.`.
pub proof fn lemma_b64_encode_no_dot(s: Seq<u8>)
    ensures
        forall|i: int| 0 <= i < b64_encode(s).len() ==> #[trigger] b64_encode(s)[i] != 46u8,
    decreases s.len(),
{
    if s.len() > 2 {
        lemma_b64_encode_no_dot(s.skip(3));
        let e = b64_encode(s);
        let rest = b64_encode(s.skip(3));
        assert forall|i: int| 0 <= i < e.len() implies #[trigger] e[i] != 46u8 by {
            if i >= 4 {
                assert(e[i] == rest[i - 4]);
            }
        }
    }
}

/// Encodes `s` in base64url.
pub fn b64_encode_bytes(s: &[u8]) -> (r: Vec<u8>)
    ensures
        r@ == b64_encode(s@),
{
    let n = s.len();
    let mut out: Vec<u8> = Vec::new();
    let mut i: usize = 0;
    proof {
        assert(s@.skip(0) =~= s@);
        assert(out@ + b64_encode(s@) =~= b64_encode(s@));
    }
    while n - i >= 3
        invariant
            i <= n,
            n == s@.len(),
            out@ + b64_encode(s@.skip(i as int)) == b64_encode(s@),
        decreases n - i,
    {
        let ghost suf = s@.skip(i as int);
        let b0 = s[i];
        let b1 = s[i + 1];
        let b2 = s[i + 2];
        proof {
            assert(suf[0] == s@[i as int]);
            assert(suf[1] == s@[i as int + 1]);
            assert(suf[2] == s@[i as int + 2]);
            assert(suf.skip(3) =~= s@.skip(i as int + 3));
        }
        out.push(enc_char(b0 / 4));
        out.push(enc_char((b0 % 4) * 16 + b1 / 16));
        out.push(enc_char((b1 % 16) * 4 + b2 / 64));
        out.push(enc_char(b2 % 64));
        proof {
            assert(out@ + b64_encode(s@.skip(i as int + 3)) =~= (out@.subrange(
                0,
                out@.len() - 4,
            ) + seq![
                b64_char(b0 as int / 4),
                b64_char((b0 as int % 4) * 16 + b1 as int / 16),
                b64_char((b1 as int % 16) * 4 + b2 as int / 64),
                b64_char(b2 as int % 64),
            ]) + b64_encode(suf.skip(3)));
            assert((seq![
                b64_char(b0 as int / 4),
                b64_char((b0 as int % 4) * 16 + b1 as int / 16),
                b64_char((b1 as int % 16) * 4 + b2 as int / 64),
                b64_char(b2 as int % 64),
            ] + b64_encode(suf.skip(3))) =~= b64_encode(suf));
            assert(out@ + b64_encode(s@.skip(i as int + 3)) =~= out@.subrange(0, out@.len() - 4)
                + b64_encode(suf));
        }
        i = i + 3;
    }
    let ghost suf = s@.skip(i as int);
    if n - i == 1 {
        let b0 = s[i];
        proof {
            assert(suf[0] == s@[i as int]);
            assert(suf.len() == 1);
        }
        out.push(enc_char(b0 / 4));
        out.push(enc_char((b0 % 4) * 16));
        proof {
            assert(out@ =~= out@.subrange(0, out@.len() - 2) + b64_encode(suf));
        }
    } else if n - i == 2 {
        let b0 = s[i];
        let b1 = s[i + 1];
        proof {
            assert(suf[0] == s@[i as int]);
            assert(suf[1] == s@[i as int + 1]);
            assert(suf.len() == 2);
        }
        out.push(enc_char(b0 / 4));
        out.push(enc_char((b0 % 4) * 16 + b1 / 16));
        out.push(enc_char((b1 % 16) * 4));
        proof {
            assert(out@ =~= out@.subrange(0, out@.len() - 3) + b64_encode(suf));
        }
    } else {
        proof {
            assert(suf.len() == 0);
            assert(out@ + b64_encode(suf) =~= out@);
        }
    }
    out
}

/// The alphabet character of a 6-bit value.
fn enc_char(v: u8) -> (r: u8)
    requires
        v < 64,
    ensures
        r == b64_char(v as int),
{
    if v < 26 {
        65 + v
    } else if v < 52 {
        97 + (v - 26)
    } else if v < 62 {
        48 + (v - 52)
    } else if v == 62 {
        45
    } else {
        95
    }
}

/// The 6-bit value of an alphabet character, if it is one.
fn dec_char(c: u8) -> (r: Option<u8>)
    ensures
        r == b64_inv(c),
{
    if 65 <= c && c <= 90 {
        Some(c - 65)
    } else if 97 <= c && c <= 122 {
        Some(c - 97 + 26)
    } else if 48 <= c && c <= 57 {
        Some(c - 48 + 52)
    } else if c == 45 {
        Some(62)
    } else if c == 95 {
        Some(63)
    } else {
        None
    }
}

/// Decodes a base64url string strictly.
pub fn b64_decode_bytes(s: &[u8]) -> (r: Option<Vec<u8>>)
    ensures
        match b64_decode(s@) {
            Some(d) => r is Some && (r matches Some(v) ==> v@ == d),
            None => r is None,
        },
{
    let n = s.len();
    let mut out: Vec<u8> = Vec::new();
    let mut i: usize = 0;
    proof {
        assert(s@.skip(0) =~= s@);
        if b64_decode(s@) is Some {
            assert(out@ + b64_decode(s@).unwrap() =~= b64_decode(s@).unwrap());
        }
    }
    while n - i >= 4
        invariant
            i <= n,
            n == s@.len(),
            match b64_decode(s@.skip(i as int)) {
                Some(d) => b64_decode(s@) == Some(out@ + d),
                None => b64_decode(s@) is None,
            },
        decreases n - i,
    {
        let ghost suf = s@.skip(i as int);
        proof {
            assert(suf[0] == s@[i as int]);
            assert(suf[1] == s@[i as int + 1]);
            assert(suf[2] == s@[i as int + 2]);
            assert(suf[3] == s@[i as int + 3]);
            assert(suf.skip(4) =~= s@.skip(i as int + 4));
        }
        let c0 = match dec_char(s[i]) {
            Some(c) => c,
            None => {
                return None;
            },
        };
        let c1 = match dec_char(s[i + 1]) {
            Some(c) => c,
            None => {
                return None;
            },
        };
        let c2 = match dec_char(s[i + 2]) {
            Some(c) => c,
            None => {
                return None;
            },
        };
        let c3 = match dec_char(s[i + 3]) {
            Some(c) => c,
            None => {
                return None;
            },
        };
        out.push(c0 * 4 + c1 / 16);
        out.push((c1 % 16) * 16 + c2 / 4);
        out.push((c2 % 4) * 64 + c3);
        proof {
            if b64_decode(suf.skip(4)) is Some {
                let d = b64_decode(suf.skip(4)).unwrap();
                assert(b64_decode(suf).unwrap() =~= seq![
                    (c0 * 4 + c1 / 16) as u8,
                    ((c1 % 16) * 16 + c2 / 4) as u8,
                    ((c2 % 4) * 64 + c3) as u8,
                ] + d);
                assert(out@ + d =~= out@.subrange(0, out@.len() - 3) + b64_decode(suf).unwrap());
            }
        }
        i = i + 4;
    }
    let ghost suf = s@.skip(i as int);
    if i == n {
        proof {
            assert(suf.len() == 0);
            assert(out@ + b64_decode(suf).unwrap() =~= out@);
        }
        Some(out)
    } else if n - i == 1 {
        proof {
            assert(suf.len() == 1);
        }
        None
    } else if n - i == 2 {
        proof {
            assert(suf[0] == s@[i as int]);
            assert(suf[1] == s@[i as int + 1]);
            assert(suf.len() == 2);
        }
        let c0 = match dec_char(s[i]) {
            Some(c) => c,
            None => {
                return None;
            },
        };
        let c1 = match dec_char(s[i + 1]) {
            Some(c) => c,
            None => {
                return None;
            },
        };
        if c1 % 16 != 0 {
            return None;
        }
        out.push(c0 * 4 + c1 / 16);
        proof {
            assert(out@ =~= out@.subrange(0, out@.len() - 1) + b64_decode(suf).unwrap());
        }
        Some(out)
    } else {
        proof {
            assert(suf[0] == s@[i as int]);
            assert(suf[1] == s@[i as int + 1]);
            assert(suf[2] == s@[i as int + 2]);
            assert(suf.len() == 3);
        }
        let c0 = match dec_char(s[i]) {
            Some(c) => c,
            None => {
                return None;
            },
        };
        let c1 = match dec_char(s[i + 1]) {
            Some(c) => c,
            None => {
                return None;
            },
        };
        let c2 = match dec_char(s[i + 2]) {
            Some(c) => c,
            None => {
                return None;
            },
        };
        if c2 % 4 != 0 {
            return None;
        }
        out.push(c0 * 4 + c1 / 16);
        out.push((c1 % 16) * 16 + c2 / 4);
        proof {
            assert(out@ =~= out@.subrange(0, out@.len() - 2) + b64_decode(suf).unwrap());
        }
        Some(out)
    }
}

} // verus!
