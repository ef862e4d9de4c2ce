//! The cryptographic primitives the ledger rests on. Each function here
//! wraps one call into an outside crate; its contract names the result
//! and states only what that crate's source shows.

use vstd::prelude::*;
use sha2::Digest;
use ed25519_dalek::Signer;
use ed25519_dalek::Verifier;

verus! {

/// The SHA-256 digest of a byte string.
pub uninterp spec fn sha256_of(data: Seq<u8>) -> Seq<u8>;

/// Relies on sha2's `Sha256`: the digest is 32 bytes and depends on the
/// input bytes alone.
#[verifier::external_body]
pub fn sha256(data: &Vec<u8>) -> (r: Vec<u8>)
    ensures
        r@ == sha256_of(data@),
        r@.len() == 32,
{
    let mut hasher = sha2::Sha256::new();
    hasher.update(data.as_slice());
    hasher.finalize().to_vec()
}

/// The Ed25519 public key derived from 32 secret-key bytes.
pub uninterp spec fn vk_of(secret: Seq<u8>) -> Seq<u8>;

/// The Ed25519 signature of a message under 32 secret-key bytes.
/// Signing is deterministic (RFC 8032), so this is a function of its
/// arguments alone.
pub uninterp spec fn sig_of(secret: Seq<u8>, message: Seq<u8>) -> Seq<u8>;

/// Whether Ed25519 verification accepts `signature` on `message` under
/// the 32 public-key bytes `public`.
pub uninterp spec fn ed_verifies(public: Seq<u8>, message: Seq<u8>, signature: Seq<u8>) -> bool;

/// Relies on ed25519_dalek's `SigningKey::generate`: a fresh 32-byte
/// secret key drawn from the system's randomness. Nothing is promised
/// of its value.
#[verifier::external_body]
pub fn random_secret_key() -> (r: Vec<u8>)
    ensures
        r@.len() == 32,
{
    ed25519_dalek::SigningKey::generate(&mut rand::rngs::OsRng).to_bytes().to_vec()
}

/// Relies on ed25519_dalek's `SigningKey::verifying_key`: the public key
/// is 32 bytes and a function of the secret-key bytes alone.
#[verifier::external_body]
pub fn ed25519_public_key(secret: &Vec<u8>) -> (r: Vec<u8>)
    requires
        secret@.len() == 32,
    ensures
        r@ == vk_of(secret@),
        r@.len() == 32,
{
    let mut sk = [0u8; 32];
    sk.copy_from_slice(secret.as_slice());
    ed25519_dalek::SigningKey::from_bytes(&sk).verifying_key().to_bytes().to_vec()
}

/// Relies on ed25519_dalek's `Signer::sign`: the signature is 64 bytes,
/// deterministic in the key and message, and verifies under the signing
/// key's public key.
#[verifier::external_body]
pub fn ed25519_sign(secret: &Vec<u8>, message: &Vec<u8>) -> (r: Vec<u8>)
    requires
        secret@.len() == 32,
    ensures
        r@ == sig_of(secret@, message@),
        r@.len() == 64,
        ed_verifies(vk_of(secret@), message@, r@),
{
    let mut sk = [0u8; 32];
    sk.copy_from_slice(secret.as_slice());
    let key = ed25519_dalek::SigningKey::from_bytes(&sk);
    key.sign(message.as_slice()).to_bytes().to_vec()
}

/// Relies on ed25519_dalek's `Verifier::verify`: acceptance depends on
/// the public-key bytes, the message and the signature bytes alone, and
/// key bytes that decode to no valid key reject every signature.
#[verifier::external_body]
pub fn ed25519_verify(public: &Vec<u8>, message: &Vec<u8>, signature: &Vec<u8>) -> (r: bool)
    requires
        public@.len() == 32,
        signature@.len() == 64,
    ensures
        r == ed_verifies(public@, message@, signature@),
{
    let mut pk = [0u8; 32];
    pk.copy_from_slice(public.as_slice());
    let mut sig = [0u8; 64];
    sig.copy_from_slice(signature.as_slice());
    match ed25519_dalek::VerifyingKey::from_bytes(&pk) {
        Ok(key) => key.verify(message.as_slice(), &ed25519_dalek::Signature::from_bytes(&sig)).is_ok(),
        Err(_) => false,
    }
}

/// The Base58 text (Bitcoin alphabet) of a byte string.
pub uninterp spec fn base58_of(data: Seq<u8>) -> Seq<u8>;

/// Relies on bs58's `encode` with its default (Bitcoin) alphabet: the
/// text depends on the input bytes alone, is empty exactly for empty
/// input, and a leading zero byte becomes a leading '1'.
#[verifier::external_body]
pub fn base58_encode(data: &Vec<u8>) -> (r: Vec<u8>)
    ensures
        r@ == base58_of(data@),
        r@.len() == 0 <==> data@.len() == 0,
        data@.len() > 0 && data@[0] == 0 ==> r@[0] == 49,
{
    bs58::encode(data.as_slice()).into_string().into_bytes()
}

} // verus!
