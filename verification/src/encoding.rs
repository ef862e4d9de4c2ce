//! The canonical byte encoding of the ledger's data. Every hash in the
//! system is the SHA-256 digest of this encoding, so it must be
//! deterministic: fixed field order, fixed integer widths, and
//! length-prefixed byte strings.
//!
//! The module also holds the hexadecimal rendering of digests, together
//! with its decoder and their round-trip lemma.

use vstd::prelude::*;

verus! {

/// Little-endian bytes of a 64-bit integer.
pub open spec fn enc_u64(n: u64) -> Seq<u8> {
    seq![
        n as u8,
        (n >> 8) as u8,
        (n >> 16) as u8,
        (n >> 24) as u8,
        (n >> 32) as u8,
        (n >> 40) as u8,
        (n >> 48) as u8,
        (n >> 56) as u8,
    ]
}

/// Little-endian bytes of a 32-bit integer.
pub open spec fn enc_u32(n: u32) -> Seq<u8> {
    seq![n as u8, (n >> 8) as u8, (n >> 16) as u8, (n >> 24) as u8]
}

/// A signed timestamp is encoded through its two's-complement image.
pub open spec fn enc_i64(n: i64) -> Seq<u8> {
    enc_u64(n as u64)
}

/// A byte string is encoded as its length followed by its bytes.
pub open spec fn enc_bytes(v: Seq<u8>) -> Seq<u8> {
    enc_u64(v.len() as u64) + v
}

/// Appends the encoding of `n` to `out`.
pub fn push_u64(out: &mut Vec<u8>, n: u64)
    ensures
        final(out)@ == old(out)@ + enc_u64(n),
{
    out.push(n as u8);
    out.push((n >> 8) as u8);
    out.push((n >> 16) as u8);
    out.push((n >> 24) as u8);
    out.push((n >> 32) as u8);
    out.push((n >> 40) as u8);
    out.push((n >> 48) as u8);
    out.push((n >> 56) as u8);
    proof {
        assert(out@ =~= old(out)@ + enc_u64(n));
    }
}

/// Appends the encoding of `n` to `out`.
pub fn push_u32(out: &mut Vec<u8>, n: u32)
    ensures
        final(out)@ == old(out)@ + enc_u32(n),
{
    out.push(n as u8);
    out.push((n >> 8) as u8);
    out.push((n >> 16) as u8);
    out.push((n >> 24) as u8);
    proof {
        assert(out@ =~= old(out)@ + enc_u32(n));
    }
}

/// Appends the encoding of `n` to `out`.
pub fn push_i64(out: &mut Vec<u8>, n: i64)
    ensures
        final(out)@ == old(out)@ + enc_i64(n),
{
    push_u64(out, n as u64);
}

/// Appends the length-prefixed encoding of `v` to `out`.
pub fn push_bytes(out: &mut Vec<u8>, v: &Vec<u8>)
    ensures
        final(out)@ == old(out)@ + enc_bytes(v@),
{
    push_u64(out, v.len() as u64);
    let ghost mid = out@;
    let mut i: usize = 0;
    while i < v.len()
        invariant
            i <= v.len(),
            out@ == mid + v@.take(i as int),
        decreases v.len() - i,
    {
        out.push(v[i]);
        proof {
            assert(out@ =~= mid + v@.take(i + 1));
        }
        i = i + 1;
    }
    proof {
        assert(v@.take(v@.len() as int) =~= v@);
        assert(out@ =~= old(out)@ + enc_bytes(v@));
    }
}

/// Whether two byte vectors hold the same bytes.
pub fn bytes_eq(a: &Vec<u8>, b: &Vec<u8>) -> (r: bool)
    ensures
        r == (a@ == b@),
{
    if a.len() != b.len() {
        proof {
            assert(a@ != b@);
        }
        return false;
    }
    let mut i: usize = 0;
    while i < a.len()
        invariant
            i <= a.len(),
            a@.len() == b@.len(),
            forall|j: int| 0 <= j < i ==> a@[j] == b@[j],
        decreases a.len() - i,
    {
        if a[i] != b[i] {
            return false;
        }
        i = i + 1;
    }
    proof {
        assert(a@ =~= b@);
    }
    true
}

/// A fresh copy of a byte vector.
pub fn copy_bytes(v: &Vec<u8>) -> (r: Vec<u8>)
    ensures
        r@ == v@,
{
    let mut r: Vec<u8> = Vec::new();
    let mut i: usize = 0;
    while i < v.len()
        invariant
            i <= v.len(),
            r@ == v@.take(i as int),
        decreases v.len() - i,
    {
        r.push(v[i]);
        proof {
            assert(r@ =~= v@.take(i + 1));
        }
        i = i + 1;
    }
    proof {
        assert(v@.take(v@.len() as int) =~= v@);
    }
    r
}

/// The lowercase hexadecimal digit for a value below 16.
pub open spec fn hex_digit(n: u8) -> u8 {
    if n < 10 {
        (n + 48) as u8
    } else {
        (n + 87) as u8
    }
}

/// The lowercase hexadecimal rendering of a byte string: two digits per
/// byte, high nibble first.
pub open spec fn hex_of(v: Seq<u8>) -> Seq<u8> {
    Seq::new(
        v.len() * 2,
        |i: int|
            if i % 2 == 0 {
                hex_digit(v[i / 2] / 16)
            } else {
                hex_digit((v[i / 2] % 16) as u8)
            },
    )
}

/// Renders bytes as lowercase hexadecimal text.
pub fn hex_encode(v: &Vec<u8>) -> (r: Vec<u8>)
    ensures
        r@ == hex_of(v@),
{
    let mut r: Vec<u8> = Vec::new();
    let mut i: usize = 0;
    while i < v.len()
        invariant
            i <= v.len(),
            r@ == hex_of(v@.take(i as int)),
        decreases v.len() - i,
    {
        let b = v[i];
        let hi = b / 16;
        let lo = b % 16;
        r.push(if hi < 10 { hi + 48 } else { hi + 87 });
        r.push(if lo < 10 { lo + 48 } else { lo + 87 });
        proof {
            assert(r@ =~= hex_of(v@.take(i + 1)));
        }
        i = i + 1;
    }
    proof {
        assert(v@.take(v@.len() as int) =~= v@);
    }
    r
}

/// The value of one hexadecimal digit, if the byte is one.
pub open spec fn hex_digit_val(c: u8) -> Option<u8> {
    if 48 <= c <= 57 {
        Some((c - 48) as u8)
    } else if 97 <= c <= 102 {
        Some((c - 87) as u8)
    } else if 65 <= c <= 70 {
        Some((c - 55) as u8)
    } else {
        None
    }
}

/// The bytes written by a hexadecimal string, or `None` when the string
/// has odd length or holds a character that is no hexadecimal digit.
pub open spec fn hex_decode_spec(s: Seq<u8>) -> Option<Seq<u8>>
    decreases s.len(),
{
    if s.len() % 2 != 0 {
        None
    } else if s.len() == 0 {
        Some(Seq::empty())
    } else {
        match (hex_digit_val(s[s.len() - 2]), hex_digit_val(s[s.len() - 1])) {
            (Some(hi), Some(lo)) => match hex_decode_spec(s.take(s.len() - 2)) {
                Some(rest) => Some(rest.push((hi * 16 + lo) as u8)),
                None => None,
            },
            _ => None,
        }
    }
}

/// Parses lowercase or uppercase hexadecimal text back into bytes.
pub fn hex_decode(s: &Vec<u8>) -> (r: Option<Vec<u8>>)
    ensures
        match r {
            Some(v) => hex_decode_spec(s@) == Some(v@),
            None => hex_decode_spec(s@) is None,
        },
{
    if s.len() % 2 != 0 {
        return None;
    }
    let mut r: Vec<u8> = Vec::new();
    let mut i: usize = 0;
    while i < s.len()
        invariant
            i <= s.len(),
            i % 2 == 0,
            s.len() % 2 == 0,
            hex_decode_spec(s@.take(i as int)) == Some(r@),
        decreases s.len() - i,
    {
        let hi = match hex_val_exec(s[i]) {
            Some(h) => h,
            None => {
                proof {
                    lemma_hex_decode_bad(s@, i as int);
                }
                return None;
            },
        };
        let lo = match hex_val_exec(s[i + 1]) {
            Some(l) => l,
            None => {
                proof {
                    lemma_hex_decode_bad(s@, i as int);
                }
                return None;
            },
        };
        r.push(hi * 16 + lo);
        proof {
            assert(s@.take(i + 2).take(i + 2 - 2) =~= s@.take(i as int));
        }
        i = i + 2;
    }
    proof {
        assert(s@.take(s@.len() as int) =~= s@);
    }
    Some(r)
}

/// Evaluates `hex_digit_val` on a concrete byte.
fn hex_val_exec(c: u8) -> (r: Option<u8>)
    ensures
        r == hex_digit_val(c),
{
    if 48 <= c && c <= 57 {
        Some(c - 48)
    } else if 97 <= c && c <= 102 {
        Some(c - 87)
    } else if 65 <= c && c <= 70 {
        Some(c - 55)
    } else {
        None
    }
}

/// A string whose digit pair at an even offset is malformed decodes to
/// nothing, whatever follows that pair.
proof fn lemma_hex_decode_bad(s: Seq<u8>, i: int)
    requires
        s.len() % 2 == 0,
        0 <= i,
        i + 2 <= s.len(),
        i % 2 == 0,
        hex_digit_val(s[i]) is None || hex_digit_val(s[i + 1]) is None,
    ensures
        hex_decode_spec(s) is None,
    decreases s.len(),
{
    if s.len() >= 2 {
        if i + 2 == s.len() {
            assert(hex_decode_spec(s) is None);
        } else {
            assert(s.take(s.len() - 2)[i] == s[i]);
            assert(s.take(s.len() - 2)[i + 1] == s[i + 1]);
            lemma_hex_decode_bad(s.take(s.len() - 2), i);
        }
    }
}

/// Hexadecimal rendering followed by decoding gives the bytes back.
pub proof fn lemma_hex_round_trip(v: Seq<u8>)
    ensures
        hex_decode_spec(hex_of(v)) == Some(v),
    decreases v.len(),
{
    if v.len() == 0 {
        assert(hex_of(v) =~= Seq::<u8>::empty());
    } else {
        let s = hex_of(v);
        let front = v.drop_last();
        lemma_hex_round_trip(front);
        assert(s.take(s.len() - 2) =~= hex_of(front));
        let b = v.last();
        assert(s[s.len() - 2] == hex_digit(b / 16));
        assert(s[s.len() - 1] == hex_digit((b % 16) as u8));
        assert(hex_digit_val(hex_digit(b / 16)) == Some((b / 16) as u8));
        assert(hex_digit_val(hex_digit((b % 16) as u8)) == Some((b % 16) as u8));
        assert((b / 16) * 16 + (b % 16) == b);
        assert(hex_decode_spec(s) == Some(front.push(b)));
        assert(front.push(b) =~= v);
    }
}

} // verus!
