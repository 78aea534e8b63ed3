//! Byte-level view of ASCII text.
//!
//! Every wire format of this crate (token framing, claim serialization,
//! base64url) is defined over byte sequences. Contracts bridge between a
//! string's character view and its byte view through `ascii_bytes`.

use vstd::prelude::*;

verus! {

use vstd::string::StrSliceExecFns;
use vstd::string::StringSliceAdditionalSpecFns;

/// The bytes of an ASCII character sequence, one byte per character.
pub open spec fn ascii_bytes(s: Seq<char>) -> Seq<u8> {
    Seq::new(s.len(), |i: int| s[i] as u8)
}

/// Copies the bytes of an ASCII string slice.
pub fn ascii_str_bytes(s: &str) -> (r: Vec<u8>)
    requires
        vstd::string::is_ascii(s),
    ensures
        r@ == ascii_bytes(s@),
{
    let v = s.as_bytes_vec();
    proof {
        vstd::string::is_ascii_spec_bytes(s);
        assert(v@ =~= ascii_bytes(s@));
    }
    v
}

/// Appends the bytes of an ASCII string slice to a byte vector.
pub fn push_ascii_str(out: &mut Vec<u8>, s: &str)
    requires
        vstd::string::is_ascii(s),
    ensures
        final(out)@ == old(out)@ + ascii_bytes(s@),
{
    let mut v = ascii_str_bytes(s);
    let ghost base = out@;
    let mut i: usize = 0;
    while i < v.len()
        invariant
            i <= v@.len(),
            v@ == ascii_bytes(s@),
            out@ == base + v@.subrange(0, i as int),
        decreases v@.len() - i,
    {
        out.push(v[i]);
        i = i + 1;
        proof {
            assert(out@ =~= base + v@.subrange(0, i as int));
        }
    }
    proof {
        assert(v@.subrange(0, v@.len() as int) =~= v@);
    }
}

/// Appends one byte sequence to another.
pub fn push_bytes(out: &mut Vec<u8>, s: &[u8])
    ensures
        final(out)@ == old(out)@ + s@,
{
    let ghost base = out@;
    let mut i: usize = 0;
    while i < s.len()
        invariant
            i <= s@.len(),
            out@ == base + s@.subrange(0, i as int),
        decreases s@.len() - i,
    {
        out.push(s[i]);
        i = i + 1;
        proof {
            assert(out@ =~= base + s@.subrange(0, i as int));
        }
    }
    proof {
        assert(s@.subrange(0, s@.len() as int) =~= s@);
    }
}

/// True when `pre` is a prefix of `s` starting at position `i`.
pub open spec fn bytes_at(s: Seq<u8>, i: int, pre: Seq<u8>) -> bool {
    &&& 0 <= i
    &&& i + pre.len() <= s.len()
    &&& s.subrange(i, i + pre.len()) == pre
}

/// Compares `s[i..]` against the expected prefix `pre`.
pub fn has_bytes_at(s: &[u8], i: usize, pre: &[u8]) -> (r: bool)
    requires
        i <= s@.len(),
    ensures
        r == bytes_at(s@, i as int, pre@),
{
    let sn = s.len();
    if sn - i < pre.len() {
        return false;
    }
    let mut j: usize = 0;
    while j < pre.len()
        invariant
            j <= pre@.len(),
            i + pre@.len() <= s@.len(),
            s@.len() == sn,
            forall|k: int| 0 <= k < j ==> s@[i + k] == pre@[k],
        decreases pre@.len() - j,
    {
        if s[i + j] != pre[j] {
            proof {
                assert(s@.subrange(i as int, i + pre@.len())[j as int] == s@[i + j]);
            }
            return false;
        }
        j = j + 1;
    }
    proof {
        assert(s@.subrange(i as int, i + pre@.len()) =~= pre@);
    }
    true
}

/// Position of the first occurrence of `b` in `s`.
pub open spec fn find_byte(s: Seq<u8>, b: u8) -> Option<int>
    decreases s.len(),
{
    if s.len() == 0 {
        None
    } else if s[0] == b {
        Some(0)
    } else {
        match find_byte(s.skip(1), b) {
            Some(i) => Some(i + 1),
            None => None,
        }
    }
}

pub proof fn lemma_find_byte(s: Seq<u8>, b: u8)
    ensures
        match find_byte(s, b) {
            Some(i) => 0 <= i < s.len() && s[i] == b && (forall|j: int| 0 <= j < i ==> s[j] != b),
            None => forall|j: int| 0 <= j < s.len() ==> s[j] != b,
        },
    decreases s.len(),
{
    if s.len() > 0 && s[0] != b {
        lemma_find_byte(s.skip(1), b);
        match find_byte(s.skip(1), b) {
            Some(i) => {
                assert(s[i + 1] == s.skip(1)[i]);
                assert forall|j: int| 0 <= j < i + 1 implies s[j] != b by {
                    if j >= 1 {
                        assert(s[j] == s.skip(1)[j - 1]);
                    }
                }
            },
            None => {
                assert forall|j: int| 0 <= j < s.len() implies s[j] != b by {
                    if j >= 1 {
                        assert(s[j] == s.skip(1)[j - 1]);
                    }
                }
            },
        }
    }
}

/// Where the first `b` is known, `find_byte` returns it.
pub proof fn lemma_find_byte_at(s: Seq<u8>, b: u8, i: int)
    requires
        0 <= i < s.len(),
        s[i] == b,
        forall|j: int| 0 <= j < i ==> s[j] != b,
    ensures
        find_byte(s, b) == Some(i),
{
    lemma_find_byte(s, b);
    match find_byte(s, b) {
        Some(k) => {
            if k < i {
                assert(s[k] != b);
            } else if k > i {
                assert(s[i] != b);
            }
        },
        None => {
            assert(s[i] != b);
        },
    }
}

/// Finds the first `b` at or after position `from`.
pub fn find_byte_from(s: &[u8], from: usize, b: u8) -> (r: Option<usize>)
    requires
        from <= s@.len(),
    ensures
        match find_byte(s@.skip(from as int), b) {
            Some(i) => r matches Some(j) && j == from + i && from <= j < s@.len(),
            None => r is None,
        },
{
    let n = s.len();
    let mut j: usize = from;
    while j < n && s[j] != b
        invariant
            from <= j <= n,
            n == s@.len(),
            forall|t: int| from <= t < j ==> s@[t] != b,
        decreases n - j,
    {
        j = j + 1;
    }
    let ghost suf = s@.skip(from as int);
    proof {
        assert(forall|t: int| 0 <= t < suf.len() ==> suf[t] == s@[from + t]);
    }
    if j == n {
        proof {
            lemma_find_byte(suf, b);
            if find_byte(suf, b) is Some {
                let i = find_byte(suf, b).unwrap();
                assert(suf[i] == b);
                assert(s@[from + i] != b);
            }
        }
        None
    } else {
        proof {
            lemma_find_byte_at(suf, b, j - from);
        }
        Some(j)
    }
}

/// Copies `s[from..to]` into a fresh vector.
pub fn copy_range(s: &[u8], from: usize, to: usize) -> (r: Vec<u8>)
    requires
        from <= to <= s@.len(),
    ensures
        r@ == s@.subrange(from as int, to as int),
{
    let mut v: Vec<u8> = Vec::new();
    let mut i: usize = from;
    while i < to
        invariant
            from <= i <= to <= s@.len(),
            v@ == s@.subrange(from as int, i as int),
        decreases to - i,
    {
        v.push(s[i]);
        proof {
            assert(v@ =~= s@.subrange(from as int, i + 1));
        }
        i = i + 1;
    }
    v
}

} // verus!
