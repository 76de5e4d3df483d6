//! The cryptographic primitives: the BLAKE3 digest and Ed25519 signatures.
//!
//! Both are computed by outside code. Each result is a function of the
//! arguments alone and is given a name here; contracts elsewhere in the
//! library are stated over these names.

use vstd::prelude::*;

verus! {

/// The 32-byte BLAKE3 digest of `data`.
pub uninterp spec fn blake3_digest(data: Seq<u8>) -> [u8; 32];

/// The Ed25519 verifying key that belongs to the 32-byte secret `seed`.
pub uninterp spec fn ed25519_public_key(seed: Seq<u8>) -> [u8; 32];

/// The 64-byte Ed25519 signature of `message` under the secret `seed`.
pub uninterp spec fn ed25519_signature(seed: Seq<u8>, message: Seq<u8>) -> [u8; 64];

/// Whether the 32 bytes `key` decode to a point of the curve.
pub uninterp spec fn ed25519_key_decodes(key: Seq<u8>) -> bool;

/// Whether `signature` passes strict verification of `message` under `key`,
/// for a `key` that decodes.
pub uninterp spec fn ed25519_strict_accepts(key: Seq<u8>, message: Seq<u8>, signature: Seq<u8>) -> bool;

/// Whether `signature` is accepted for `message` under `key`: the key decodes
/// and strict verification passes.
pub open spec fn signature_valid(key: Seq<u8>, message: Seq<u8>, signature: Seq<u8>) -> bool {
    ed25519_key_decodes(key) && ed25519_strict_accepts(key, message, signature)
}

/// Calls `blake3::hash`. The contract only names the digest: the result is
/// the BLAKE3 hash of the input, a function of the input bytes alone.
#[verifier::external_body]
pub(crate) fn hash_bytes(data: &[u8]) -> (digest: [u8; 32])
    ensures
        digest == blake3_digest(data@),
{
    *blake3::hash(data).as_bytes()
}

/// Calls `ed25519_dalek::SigningKey::verifying_key` on the key built from
/// `seed`. The contract names the public half of the key pair.
#[verifier::external_body]
pub(crate) fn public_key_of(seed: &[u8; 32]) -> (key: [u8; 32])
    ensures
        key == ed25519_public_key(seed@),
{
    ed25519_dalek::SigningKey::from_bytes(seed).verifying_key().to_bytes()
}

/// Calls `ed25519_dalek::Signer::sign` on the key built from `seed`. Ed25519
/// signing draws no randomness, so the contract names the signature.
#[verifier::external_body]
pub(crate) fn sign_message(seed: &[u8; 32], message: &[u8]) -> (signature: [u8; 64])
    ensures
        signature == ed25519_signature(seed@, message@),
{
    ed25519_dalek::Signer::sign(&ed25519_dalek::SigningKey::from_bytes(seed), message).to_bytes()
}

/// Calls `ed25519_dalek::VerifyingKey::from_bytes` and reports whether it
/// succeeded, that is whether the bytes decompress to a curve point.
#[verifier::external_body]
pub(crate) fn key_decodes(key: &[u8; 32]) -> (ok: bool)
    ensures
        ok == ed25519_key_decodes(key@),
{
    ed25519_dalek::VerifyingKey::from_bytes(key).is_ok()
}

/// Calls `ed25519_dalek::VerifyingKey::verify_strict` with the key decoded
/// from `key`. The result is `true` exactly when the key decodes and the
/// strict check accepts the signature.
#[verifier::external_body]
pub(crate) fn verify_strict(key: &[u8; 32], message: &[u8], signature: &[u8; 64]) -> (ok: bool)
    ensures
        ok == (ed25519_key_decodes(key@) && ed25519_strict_accepts(
            key@,
            message@,
            signature@,
        )),
{
    match ed25519_dalek::VerifyingKey::from_bytes(key) {
        Ok(k) => k.verify_strict(message, &ed25519_dalek::Signature::from_bytes(signature)).is_ok(),
        Err(_) => false,
    }
}

} // verus!
