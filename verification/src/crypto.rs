//! Ed25519 signing and verification, through `ed25519-dalek`.
//!
//! Ed25519 is deterministic (RFC 8032): the signature is a function of the
//! secret seed and the message alone, and the verification outcome is a
//! function of public key bytes, message and signature bytes alone.  Those
//! two functions, and the derivation of the public key from a seed, are
//! named here; the wrappers state the one relation between them that the
//! library's contracts rest on — a signature made with a seed validates
//! under that seed's public key.

use vstd::prelude::*;

use ed25519_dalek::Signer;
use ed25519_dalek::Verifier;

verus! {

/// The 64-byte Ed25519 signature of a message under a 32-byte secret seed.
pub uninterp spec fn ed25519_sign(seed: Seq<u8>, msg: Seq<u8>) -> Seq<u8>;

/// The 32-byte Ed25519 public key derived from a 32-byte secret seed.
pub uninterp spec fn ed25519_pubkey(seed: Seq<u8>) -> Seq<u8>;

/// Whether 32 public key bytes name a valid Ed25519 key under which the
/// signature bytes validate for the message.
pub uninterp spec fn ed25519_verifies(pk: Seq<u8>, msg: Seq<u8>, sig: Seq<u8>) -> bool;

/// Relies on `ed25519_dalek::SigningKey::from_bytes` and `Signer::sign`:
/// signing is deterministic in seed and message, never fails, and yields
/// exactly 64 bytes.
#[verifier::external_body]
pub(crate) fn sign_detached(seed: &Vec<u8>, msg: &Vec<u8>) -> (r: Vec<u8>)
    requires
        seed@.len() == 32,
    ensures
        r@ == ed25519_sign(seed@, msg@),
        r@.len() == 64,
{
    let arr: [u8; 32] = seed.as_slice().try_into().unwrap();
    let key = ed25519_dalek::SigningKey::from_bytes(&arr);
    key.sign(msg.as_slice()).to_bytes().to_vec()
}

/// Relies on `ed25519_dalek::VerifyingKey::from_bytes`,
/// `Signature::from_bytes` and `Verifier::verify`: the outcome is a
/// function of the three byte strings alone — false when the public key
/// bytes name no valid key — and a signature produced by
/// `SigningKey::from_bytes(seed).sign(msg)` validates under that seed's
/// public key `SigningKey::from_bytes(seed).verifying_key()`.
#[verifier::external_body]
pub(crate) fn verify_detached(pk: &Vec<u8>, msg: &Vec<u8>, sig: &Vec<u8>) -> (r: bool)
    requires
        pk@.len() == 32,
        sig@.len() == 64,
    ensures
        r == ed25519_verifies(pk@, msg@, sig@),
        forall|seed: Seq<u8>| pk@ == ed25519_pubkey(seed) && sig@ == ed25519_sign(seed, msg@)
            ==> r,
{
    let pk_arr: [u8; 32] = pk.as_slice().try_into().unwrap();
    let sig_arr: [u8; 64] = sig.as_slice().try_into().unwrap();
    let key = match ed25519_dalek::VerifyingKey::from_bytes(&pk_arr) {
        Ok(k) => k,
        Err(_) => {
            return false;
        },
    };
    let signature = ed25519_dalek::Signature::from_bytes(&sig_arr);
    key.verify(msg.as_slice(), &signature).is_ok()
}

} // verus!
