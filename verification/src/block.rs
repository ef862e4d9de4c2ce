//! A block: a slice of history. Its hash is the digest of its canonical
//! encoding with the hash field blanked, so the stored hash can always
//! be checked by recomputation.

use vstd::prelude::*;
use crate::crypto::{sha256, sha256_of};
use crate::encoding::{copy_bytes, enc_bytes, enc_i64, enc_u64, hex_encode, hex_of, push_bytes, push_i64, push_u64};
use crate::fractal::{enc_fractal, push_fractal, FractalData, FractalDataV};
use crate::transaction::{clone_txs, enc_txs, push_txs, Transaction, TransactionV};

verus! {

/// A block of the chain.
pub struct Block {
    /// Zero-based position in the chain.
    pub index: u64,
    /// Seconds since the epoch when the block was assembled.
    pub timestamp: i64,
    /// The fractal payload mined into this block.
    pub fractal: FractalData,
    /// The transactions the block commits, coinbase first.
    pub transactions: Vec<Transaction>,
    /// The hexadecimal hash of the preceding block.
    pub previous_hash: Vec<u8>,
    /// The hexadecimal hash of this block, blanked while hashing.
    pub hash: Vec<u8>,
    /// The proof-of-work counter.
    pub nonce: u64,
}

/// The mathematical image of a `Block`.
pub ghost struct BlockV {
    pub index: u64,
    pub timestamp: i64,
    pub fractal: FractalDataV,
    pub transactions: Seq<TransactionV>,
    pub previous_hash: Seq<u8>,
    pub hash: Seq<u8>,
    pub nonce: u64,
}

impl View for Block {
    type V = BlockV;

    open spec fn view(&self) -> BlockV {
        BlockV {
            index: self.index,
            timestamp: self.timestamp,
            fractal: self.fractal@,
            transactions: self.transactions.deep_view(),
            previous_hash: self.previous_hash@,
            hash: self.hash@,
            nonce: self.nonce,
        }
    }
}

impl DeepView for Block {
    type V = BlockV;

    open spec fn deep_view(&self) -> BlockV {
        self.view()
    }
}

/// The bytes hashed to identify a block: every field in declaration
/// order, with the hash itself blanked. Opaque: callers reason about a
/// block's digest as a whole, not about these bytes.
#[verifier::opaque]
pub open spec fn enc_block_headers(b: BlockV) -> Seq<u8> {
    enc_u64(b.index) + enc_i64(b.timestamp) + enc_fractal(b.fractal) + enc_u64(
        b.transactions.len() as u64,
    ) + enc_txs(b.transactions) + enc_bytes(b.previous_hash) + enc_bytes(Seq::empty()) + enc_u64(
        b.nonce,
    )
}

/// A block's hash: lowercase hexadecimal SHA-256 of its canonical
/// encoding with the hash field blanked. It does not depend on the
/// stored hash.
pub open spec fn block_digest(b: BlockV) -> Seq<u8> {
    hex_of(sha256_of(enc_block_headers(b)))
}

/// Blocks that agree on every field but the stored hash have the same
/// digest: the hash field never feeds its own computation.
pub proof fn lemma_digest_ignores_hash(b1: BlockV, b2: BlockV)
    requires
        b1.index == b2.index,
        b1.timestamp == b2.timestamp,
        b1.fractal == b2.fractal,
        b1.transactions == b2.transactions,
        b1.previous_hash == b2.previous_hash,
        b1.nonce == b2.nonce,
    ensures
        block_digest(b1) == block_digest(b2),
{
    reveal(enc_block_headers);
    assert(enc_block_headers(b1) == enc_block_headers(b2));
}

impl Block {
    /// The block's hash, recomputed from its content. Always 64
    /// hexadecimal characters.
    pub fn calculate_hash(&self) -> (r: Vec<u8>)
        ensures
            r@ == block_digest(self@),
            r@.len() == 64,
    {
        let mut bytes: Vec<u8> = Vec::new();
        let empty: Vec<u8> = Vec::new();
        push_u64(&mut bytes, self.index);
        push_i64(&mut bytes, self.timestamp);
        push_fractal(&mut bytes, &self.fractal);
        push_u64(&mut bytes, self.transactions.len() as u64);
        push_txs(&mut bytes, &self.transactions);
        push_bytes(&mut bytes, &self.previous_hash);
        push_bytes(&mut bytes, &empty);
        push_u64(&mut bytes, self.nonce);
        proof {
            reveal(enc_block_headers);
            assert(bytes@ =~= enc_block_headers(self@));
        }
        let digest = sha256(&bytes);
        hex_encode(&digest)
    }
}

/// A fresh copy of a block.
pub fn clone_block(b: &Block) -> (r: Block)
    ensures
        r@ == b@,
{
    let r = Block {
        index: b.index,
        timestamp: b.timestamp,
        fractal: b.fractal.duplicate(),
        transactions: clone_txs(&b.transactions),
        previous_hash: copy_bytes(&b.previous_hash),
        hash: copy_bytes(&b.hash),
        nonce: b.nonce,
    };
    r
}

} // verus!
