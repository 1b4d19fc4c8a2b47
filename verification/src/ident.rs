//! Random bytes from the operating system, and random identifiers.

use vstd::prelude::*;
use rand::RngCore;
use crate::digest::hex_text;

verus! {

/// `n` bytes from the operating system's random source (rand's `OsRng`,
/// `RngCore::try_fill_bytes`); `None` when the operating system gives
/// none. Only their number is stated: the bytes are random.
#[verifier::external_body]
pub(crate) fn os_random_bytes(n: usize) -> (r: Option<Vec<u8>>)
    ensures
        r matches Some(v) ==> v@.len() == n,
{
    let mut v = vec![0u8; n];
    match rand::rngs::OsRng.try_fill_bytes(&mut v) {
        Ok(()) => Some(v),
        Err(_) => None,
    }
}

/// The 16 bytes of the version-4 UUID made from 16 random bytes: the
/// version (4) in the high nibble of byte 6 and the RFC 4122 variant in the
/// top bits of byte 8.
pub open spec fn uuid_v4_bytes(b: Seq<u8>) -> Seq<u8> {
    b.update(6, ((b[6] & 0x0fu8) | 0x40u8) as u8).update(8, ((b[8] & 0x3fu8) | 0x80u8) as u8)
}

/// The hyphenated text of the version-4 UUID made from 16 random bytes:
/// lower-case hex in groups of 8, 4, 4, 4 and 12 digits.
pub open spec fn uuid_v4_text_of(b: Seq<u8>) -> Seq<char> {
    let u = uuid_v4_bytes(b);
    hex_text(u.subrange(0, 4)) + seq!['-'] + hex_text(u.subrange(4, 6)) + seq!['-'] + hex_text(u.subrange(6, 8))
        + seq!['-'] + hex_text(u.subrange(8, 10)) + seq!['-'] + hex_text(u.subrange(10, 16))
}

/// The version-4 UUID made from 16 random bytes (uuid's
/// `Builder::from_random_bytes`, which sets the version and variant bits,
/// `into_uuid`, then `to_string`, the lower-case hyphenated form): the text
/// `uuid_v4_text_of` gives, 36 characters.
#[verifier::external_body]
fn uuid_v4_text(bytes: &[u8; 16]) -> (s: String)
    ensures
        s@ == uuid_v4_text_of(bytes@),
        s@.len() == 36,
{
    uuid::Builder::from_random_bytes(*bytes).into_uuid().to_string()
}

fn to_array16(v: &Vec<u8>) -> (a: [u8; 16])
    requires
        v@.len() == 16,
    ensures
        a@ == v@,
{
    let mut a = [0u8; 16];
    let mut i: usize = 0;
    while i < 16
        invariant
            v@.len() == 16,
            i <= 16,
            forall|j: int| 0 <= j < i ==> a@[j] == v@[j],
        decreases 16 - i,
    {
        a[i] = v[i];
        i = i + 1;
    }
    assert(a@ =~= v@);
    a
}

/// A fresh random version-4 UUID in its hyphenated text form, from 16
/// bytes of the operating system's random source. When the operating
/// system gives no random bytes, the UUID of 16 zero bytes is used.
pub fn new_uuid_v4() -> (s: String)
    ensures
        s@.len() == 36,
        exists|b: Seq<u8>| b.len() == 16 && s@ == uuid_v4_text_of(b),
{
    match os_random_bytes(16) {
        Some(v) => {
            let b = to_array16(&v);
            uuid_v4_text(&b)
        },
        None => {
            let b = [0u8; 16];
            uuid_v4_text(&b)
        },
    }
}

} // verus!
