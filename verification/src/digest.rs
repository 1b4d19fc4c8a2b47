//! SHA-256 digests in lower-case hex, and the byte encodings fed to them.

use vstd::prelude::*;
use vstd::string::StringSliceAdditionalSpecFns;
use sha2::{Digest, Sha256};
use crate::text::string_push;

verus! {

/// The SHA-256 digest of a byte string.
pub uninterp spec fn sha256_of(data: Seq<u8>) -> Seq<u8>;

/// A lower-case hex digit.
pub open spec fn is_hex_digit(c: char) -> bool {
    ('0' <= c && c <= '9') || ('a' <= c && c <= 'f')
}

/// The lower-case hex digit of a value below 16.
pub open spec fn nibble_char(d: u8) -> char {
    if d == 0 { '0' } else if d == 1 { '1' } else if d == 2 { '2' } else if d == 3 { '3' }
    else if d == 4 { '4' } else if d == 5 { '5' } else if d == 6 { '6' } else if d == 7 { '7' }
    else if d == 8 { '8' } else if d == 9 { '9' } else if d == 10 { 'a' } else if d == 11 { 'b' }
    else if d == 12 { 'c' } else if d == 13 { 'd' } else if d == 14 { 'e' } else { 'f' }
}

/// Bytes in lower-case hex, two digits per byte, high digit first.
pub open spec fn hex_text(b: Seq<u8>) -> Seq<char>
    decreases b.len(),
{
    if b.len() == 0 {
        Seq::empty()
    } else {
        hex_text(b.drop_last()) + seq![nibble_char(b.last() / 16), nibble_char(b.last() % 16)]
    }
}

/// The lower-case hex SHA-256 digest of a byte string.
pub open spec fn sha256_hex_of(data: Seq<u8>) -> Seq<char> {
    hex_text(sha256_of(data))
}

/// SHA-256 of `data` (sha2's `Sha256::digest`), as its 32 bytes. The
/// digest is named by `sha256_of`; nothing more is stated of it.
#[verifier::external_body]
pub(crate) fn sha256_digest(data: &[u8]) -> (r: [u8; 32])
    ensures
        r@ == sha256_of(data@),
{
    let d = Sha256::digest(data);
    let mut out = [0u8; 32];
    out.copy_from_slice(&d);
    out
}

fn nibble(d: u8) -> (c: char)
    requires
        d < 16,
    ensures
        c == nibble_char(d),
{
    if d == 0 { '0' } else if d == 1 { '1' } else if d == 2 { '2' } else if d == 3 { '3' }
    else if d == 4 { '4' } else if d == 5 { '5' } else if d == 6 { '6' } else if d == 7 { '7' }
    else if d == 8 { '8' } else if d == 9 { '9' } else if d == 10 { 'a' } else if d == 11 { 'b' }
    else if d == 12 { 'c' } else if d == 13 { 'd' } else if d == 14 { 'e' } else { 'f' }
}

proof fn lemma_hex_text(b: Seq<u8>)
    ensures
        hex_text(b).len() == 2 * b.len(),
        forall|i: int| 0 <= i < hex_text(b).len() ==> is_hex_digit(#[trigger] hex_text(b)[i]),
    decreases b.len(),
{
    if b.len() > 0 {
        lemma_hex_text(b.drop_last());
        let h = hex_text(b);
        let h0 = hex_text(b.drop_last());
        assert forall|i: int| 0 <= i < h.len() implies is_hex_digit(#[trigger] h[i]) by {
            if i < h0.len() {
                assert(h[i] == h0[i]);
            }
        }
    }
}

/// Bytes in lower-case hex (as the `LowerHex` of a digest prints them).
pub fn hex_string(b: &[u8]) -> (h: String)
    ensures
        h@ == hex_text(b@),
        h@.len() == 2 * b@.len(),
        forall|i: int| 0 <= i < h@.len() ==> is_hex_digit(#[trigger] h@[i]),
{
    let mut h = String::new();
    let mut i: usize = 0;
    while i < b.len()
        invariant
            i <= b@.len(),
            h@ == hex_text(b@.subrange(0, i as int)),
        decreases b@.len() - i,
    {
        let x = b[i];
        string_push(&mut h, nibble(x / 16));
        string_push(&mut h, nibble(x % 16));
        proof {
            assert(b@.subrange(0, i + 1).drop_last() =~= b@.subrange(0, i as int));
        }
        i = i + 1;
    }
    proof {
        assert(b@.subrange(0, b@.len() as int) =~= b@);
        lemma_hex_text(b@);
    }
    h
}

/// The lower-case hex SHA-256 digest of `data`: 64 hex digits.
pub fn sha256_hex(data: &[u8]) -> (h: String)
    ensures
        h@ == sha256_hex_of(data@),
        h@.len() == 64,
        forall|i: int| 0 <= i < h@.len() ==> is_hex_digit(#[trigger] h@[i]),
{
    let d = sha256_digest(data);
    hex_string(d.as_slice())
}

/// The eight little-endian bytes of a `u64`.
pub open spec fn le_bytes(n: u64) -> Seq<u8> {
    seq![
        n as u8,
        (n >> 8u64) as u8,
        (n >> 16u64) as u8,
        (n >> 24u64) as u8,
        (n >> 32u64) as u8,
        (n >> 40u64) as u8,
        (n >> 48u64) as u8,
        (n >> 56u64) as u8,
    ]
}

/// Appends the little-endian bytes of `n`.
pub fn push_le_bytes(v: &mut Vec<u8>, n: u64)
    ensures
        final(v)@ == old(v)@ + le_bytes(n),
{
    let ghost v0 = v@;
    v.push(n as u8);
    v.push((n >> 8u64) as u8);
    v.push((n >> 16u64) as u8);
    v.push((n >> 24u64) as u8);
    v.push((n >> 32u64) as u8);
    v.push((n >> 40u64) as u8);
    v.push((n >> 48u64) as u8);
    v.push((n >> 56u64) as u8);
    assert(v@ =~= v0 + le_bytes(n));
}

/// Appends the UTF-8 bytes of `s`.
pub fn push_str_bytes(v: &mut Vec<u8>, s: &str)
    ensures
        final(v)@ == old(v)@ + s.spec_bytes(),
{
    let b = s.as_bytes();
    let ghost v0 = v@;
    let mut i: usize = 0;
    while i < b.len()
        invariant
            b@ == s.spec_bytes(),
            i <= b@.len(),
            v@ == v0 + b@.subrange(0, i as int),
        decreases b@.len() - i,
    {
        v.push(b[i]);
        i = i + 1;
        assert(v@ =~= v0 + b@.subrange(0, i as int));
    }
    assert(b@.subrange(0, b@.len() as int) =~= b@);
}

} // verus!
