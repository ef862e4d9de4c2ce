//! A wallet: an Ed25519 keypair held by its 32 secret-key bytes, and the
//! Base58Check address derived from the public key.

use vstd::prelude::*;
use crate::crypto::{
    base58_encode, base58_of, ed_verifies, ed25519_public_key, ed25519_sign, random_secret_key,
    sha256, sha256_of, sig_of, vk_of,
};

verus! {

/// The version byte that leads every address payload.
pub const ADDRESS_VERSION: u8 = 0;

/// The number of checksum bytes appended to the payload.
pub const CHECKSUM_LEN: usize = 4;

/// The version-prefixed hash of a public key.
pub open spec fn versioned_payload(pk: Seq<u8>) -> Seq<u8> {
    seq![ADDRESS_VERSION] + sha256_of(pk)
}

/// The first four bytes of the double SHA-256 of a payload.
pub open spec fn checksum_of(payload: Seq<u8>) -> Seq<u8> {
    sha256_of(sha256_of(payload)).take(CHECKSUM_LEN as int)
}

/// The address text of a public key: Base58 over version byte, key hash
/// and checksum.
pub open spec fn address_of(pk: Seq<u8>) -> Seq<u8> {
    base58_of(versioned_payload(pk) + checksum_of(versioned_payload(pk)))
}

/// A wallet holding one signing key.
pub struct Wallet {
    secret: Vec<u8>,
}

impl View for Wallet {
    type V = Seq<u8>;

    /// The secret-key bytes.
    closed spec fn view(&self) -> Seq<u8> {
        self.secret@
    }
}

impl Wallet {
    /// A well-formed wallet holds exactly 32 secret-key bytes.
    pub open spec fn wf(&self) -> bool {
        self@.len() == 32
    }

    /// Creates a wallet with a freshly drawn signing key.
    pub fn new() -> (r: Wallet)
        ensures
            r.wf(),
    {
        Wallet { secret: random_secret_key() }
    }

    /// Rebuilds a wallet from its 32 secret-key bytes.
    pub fn from_secret(secret: Vec<u8>) -> (r: Wallet)
        requires
            secret@.len() == 32,
        ensures
            r@ == secret@,
            r.wf(),
    {
        Wallet { secret }
    }

    /// The secret-key bytes, for export.
    pub fn secret_bytes(&self) -> (r: Vec<u8>)
        ensures
            r@ == self@,
    {
        crate::encoding::copy_bytes(&self.secret)
    }

    /// The wallet's public key.
    pub fn get_public_key(&self) -> (r: Vec<u8>)
        requires
            self.wf(),
        ensures
            r@ == vk_of(self@),
            r@.len() == 32,
    {
        ed25519_public_key(&self.secret)
    }

    /// Signs a message with the wallet's secret key. The signature
    /// verifies under the wallet's public key.
    pub fn sign(&self, message: &Vec<u8>) -> (r: Vec<u8>)
        requires
            self.wf(),
        ensures
            r@ == sig_of(self@, message@),
            r@.len() == 64,
            ed_verifies(vk_of(self@), message@, r@),
    {
        ed25519_sign(&self.secret, message)
    }

    /// The SHA-256 hash of the public key.
    fn hash_pub_key(&self) -> (r: Vec<u8>)
        requires
            self.wf(),
        ensures
            r@ == sha256_of(vk_of(self@)),
    {
        let pk = self.get_public_key();
        sha256(&pk)
    }

    /// The first `CHECKSUM_LEN` bytes of the double SHA-256 of `payload`.
    fn checksum(payload: &Vec<u8>) -> (r: Vec<u8>)
        ensures
            r@ == checksum_of(payload@),
    {
        let once = sha256(payload);
        let twice = sha256(&once);
        let mut r: Vec<u8> = Vec::new();
        let mut i: usize = 0;
        while i < CHECKSUM_LEN
            invariant
                i <= CHECKSUM_LEN,
                twice@.len() == 32,
                twice@ == sha256_of(sha256_of(payload@)),
                r@ == twice@.take(i as int),
            decreases CHECKSUM_LEN - i,
        {
            r.push(twice[i]);
            proof {
                assert(r@ =~= twice@.take(i + 1));
            }
            i = i + 1;
        }
        r
    }

    /// The wallet's address: Base58Check over the version-prefixed
    /// public-key hash. It always begins with '1', the Base58 image of
    /// the zero version byte.
    pub fn get_address(&self) -> (r: Vec<u8>)
        requires
            self.wf(),
        ensures
            r@ == address_of(vk_of(self@)),
            r@.len() > 0,
            r@[0] == 49,
    {
        let pub_key_hash = self.hash_pub_key();
        let mut payload: Vec<u8> = Vec::new();
        payload.push(ADDRESS_VERSION);
        let mut i: usize = 0;
        while i < pub_key_hash.len()
            invariant
                i <= pub_key_hash.len(),
                payload@ == seq![ADDRESS_VERSION] + pub_key_hash@.take(i as int),
            decreases pub_key_hash.len() - i,
        {
            payload.push(pub_key_hash[i]);
            proof {
                assert(payload@ =~= seq![ADDRESS_VERSION] + pub_key_hash@.take(i + 1));
            }
            i = i + 1;
        }
        proof {
            assert(pub_key_hash@.take(pub_key_hash@.len() as int) =~= pub_key_hash@);
            assert(payload@ =~= versioned_payload(vk_of(self@)));
        }
        let check = Self::checksum(&payload);
        let ghost payload_snap = payload@;
        let mut j: usize = 0;
        while j < check.len()
            invariant
                j <= check.len(),
                payload@ == payload_snap + check@.take(j as int),
            decreases check.len() - j,
        {
            payload.push(check[j]);
            proof {
                assert(payload@ =~= payload_snap + check@.take(j + 1));
            }
            j = j + 1;
        }
        proof {
            assert(check@.take(check@.len() as int) =~= check@);
            assert(payload@ =~= versioned_payload(vk_of(self@)) + checksum_of(
                versioned_payload(vk_of(self@)),
            ));
        }
        base58_encode(&payload)
    }
}

} // verus!
