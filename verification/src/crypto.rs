//! Ed25519 keys and signatures, held as bytes: a 32-byte secret key (the
//! signing key's seed), the 32-byte encoding of its public key, and 64-byte
//! signatures.

use vstd::prelude::*;
use ed25519_dalek::{Signature, Signer, SigningKey, Verifier, VerifyingKey};

verus! {

/// The 32-byte public key of a 32-byte secret key.
pub uninterp spec fn ed25519_public_of(secret: Seq<u8>) -> Seq<u8>;

/// The 64-byte Ed25519 signature of `msg` under a 32-byte secret key
/// (Ed25519 signing is deterministic).
pub uninterp spec fn ed25519_signature_of(secret: Seq<u8>, msg: Seq<u8>) -> Seq<u8>;

/// Whether Ed25519 accepts `sig` as the signature of `msg` under the
/// public key encoded by the 32 bytes `key`.
pub uninterp spec fn ed25519_accepts(key: Seq<u8>, msg: Seq<u8>, sig: Seq<u8>) -> bool;

/// A signature as checked: itself when it is 64 bytes long, else 64 zero
/// bytes.
pub open spec fn sig_or_zeros(sig: Seq<u8>) -> Seq<u8> {
    if sig.len() == 64 { sig } else { Seq::new(64, |i: int| 0u8) }
}

/// The public key of a secret key (ed25519-dalek's
/// `SigningKey::from_bytes`, `verifying_key`, `VerifyingKey::to_bytes`),
/// named by `ed25519_public_of`.
#[verifier::external_body]
pub(crate) fn public_key_of(secret_key: &[u8; 32]) -> (pk: [u8; 32])
    ensures
        pk@ == ed25519_public_of(secret_key@),
{
    SigningKey::from_bytes(secret_key).verifying_key().to_bytes()
}

/// The Ed25519 signature of `msg` (ed25519-dalek's `SigningKey::from_bytes`,
/// `Signer::sign`, `Signature::to_bytes`; signing does not fail), named by
/// `ed25519_signature_of`. As ed25519-dalek documents, a signature made with
/// a signing key verifies under its verifying key: `ed25519_accepts` holds
/// of it under the key's public key.
#[verifier::external_body]
pub(crate) fn sign_bytes(secret_key: &[u8; 32], msg: &[u8]) -> (sig: Vec<u8>)
    ensures
        sig@ == ed25519_signature_of(secret_key@, msg@),
        sig@.len() == 64,
        ed25519_accepts(ed25519_public_of(secret_key@), msg@, sig@),
{
    SigningKey::from_bytes(secret_key).sign(msg).to_bytes().to_vec()
}

/// Whether `sig` is a valid signature of `msg` under the public key whose
/// 32-byte encoding is `key` (ed25519-dalek's `VerifyingKey::from_bytes`,
/// then `Verifier::verify`, `Ok` counting as valid; bytes that encode no
/// key are refused). The answer is a function of the three byte strings,
/// named by `ed25519_accepts`.
#[verifier::external_body]
fn verify_bytes(key: &[u8; 32], msg: &[u8], sig: &[u8]) -> (b: bool)
    requires
        sig@.len() == 64,
    ensures
        b == ed25519_accepts(key@, msg@, sig@),
{
    let mut a = [0u8; 64];
    a.copy_from_slice(sig);
    match VerifyingKey::from_bytes(key) {
        Ok(vk) => vk.verify(msg, &Signature::from_bytes(&a)).is_ok(),
        Err(_) => false,
    }
}

/// Checks a signature of `msg` under a public key; a signature that is not
/// 64 bytes long is checked as 64 zero bytes.
pub fn verify_signature(public_key: &[u8; 32], msg: &[u8], sig: &[u8]) -> (b: bool)
    ensures
        b == ed25519_accepts(public_key@, msg@, sig_or_zeros(sig@)),
{
    if sig.len() == 64 {
        let b = verify_bytes(public_key, msg, sig);
        assert(sig_or_zeros(sig@) == sig@);
        b
    } else {
        let zeros: Vec<u8> = vec![0u8; 64];
        assert(zeros@ =~= sig_or_zeros(sig@));
        verify_bytes(public_key, msg, zeros.as_slice())
    }
}

} // verus!
