//! Proof of work: find a nonce whose block hash begins with enough
//! zero characters. Each attempt stamps the nonce into the fractal's
//! seed field and leaves the template's geometry unchanged; a caller
//! that wants the drawing regenerated from each seed, as the original
//! drawing-coupled search does, runs the same per-attempt hash check
//! around its own generator. The search walks the nonce space upward
//! and stops at its end, so it always terminates; a difficulty low
//! enough to be minable in practice finds a nonce long before that.

use vstd::prelude::*;
use crate::block::{block_digest, lemma_digest_ignores_hash, Block, BlockV};
use crate::fractal::{fractal_with_seed, FractalData, FractalDataV};

verus! {

/// Whether a hash carries `difficulty` leading ASCII zero characters.
pub open spec fn meets_difficulty(hash: Seq<u8>, difficulty: int) -> bool {
    hash.len() >= difficulty && forall|i: int| 0 <= i < difficulty ==> hash[i] == 48
}

/// Checks the leading-zero target on a concrete hash.
pub fn check_difficulty(hash: &Vec<u8>, difficulty: usize) -> (r: bool)
    ensures
        r == meets_difficulty(hash@, difficulty as int),
{
    if hash.len() < difficulty {
        return false;
    }
    let mut i: usize = 0;
    while i < difficulty
        invariant
            i <= difficulty,
            difficulty <= hash@.len(),
            forall|j: int| 0 <= j < i ==> hash@[j] == 48,
        decreases difficulty - i,
    {
        if hash[i] != 48 {
            return false;
        }
        i = i + 1;
    }
    true
}

/// The candidate the miner hashes at a given nonce: the block with that
/// nonce, its fractal reseeded with it, and everything else unchanged.
pub open spec fn mining_attempt(block: BlockV, fractal: FractalDataV, nonce: u64) -> BlockV {
    BlockV { nonce, fractal: fractal_with_seed(fractal, nonce), ..block }
}

/// The proof-of-work searcher.
pub struct Miner;

impl Miner {
    /// Searches nonces from the block's current one upward until the
    /// recomputed hash meets the difficulty target. The found block
    /// keeps the candidate's index, timestamp, transactions and parent,
    /// carries the template fractal seeded with the winning nonce, and
    /// stores a hash that both recomputes from its content and meets
    /// the target; the winning nonce is the least one from the start
    /// that meets it. `None` comes back only when no nonce from the
    /// starting one to the end of the nonce space meets the target.
    #[verifier::rlimit(50)]
    pub fn mine_block(difficulty: usize, fractal: &FractalData, block: Block) -> (r: Option<Block>)
        ensures
            match r {
                Some(b) => b@.index == block@.index && b@.timestamp == block@.timestamp
                    && b@.transactions == block@.transactions && b@.previous_hash
                    == block@.previous_hash && b@.nonce >= block@.nonce && b@.fractal
                    == fractal_with_seed(fractal@, b@.nonce) && b@.hash == block_digest(b@)
                    && meets_difficulty(b@.hash, difficulty as int) && (forall|n: u64|
                    block@.nonce <= n < b@.nonce ==> !meets_difficulty(
                        block_digest(mining_attempt(block@, fractal@, n)),
                        difficulty as int,
                    )),
                None => forall|n: u64|
                    n >= block@.nonce ==> !meets_difficulty(
                        block_digest(mining_attempt(block@, fractal@, n)),
                        difficulty as int,
                    ),
            },
    {
        let ghost start = block@;
        let mut candidate = block;
        loop
            invariant
                start == block@,
                candidate@.index == start.index,
                candidate@.timestamp == start.timestamp,
                candidate@.transactions == start.transactions,
                candidate@.previous_hash == start.previous_hash,
                candidate@.hash == start.hash,
                candidate@.nonce >= start.nonce,
                forall|n: u64|
                    start.nonce <= n < candidate@.nonce ==> !meets_difficulty(
                        block_digest(mining_attempt(start, fractal@, n)),
                        difficulty as int,
                    ),
            decreases u64::MAX - candidate@.nonce,
        {
            candidate.fractal = fractal.with_seed(candidate.nonce);
            proof {
                assert(candidate@ == mining_attempt(start, fractal@, candidate@.nonce));
            }
            let hash = candidate.calculate_hash();
            if check_difficulty(&hash, difficulty) {
                let ghost before = candidate@;
                candidate.hash = hash;
                proof {
                    lemma_digest_ignores_hash(candidate@, before);
                }
                return Some(candidate);
            }
            if candidate.nonce == u64::MAX {
                return None;
            }
            candidate.nonce = candidate.nonce + 1;
        }
    }
}

} // verus!
