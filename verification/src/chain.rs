//! The chain engine: an append-only list of blocks starting at a mined
//! genesis block, the validity rules a foreign block must pass, the
//! difficulty adjustment schedule, and the naive longest-chain
//! replacement used when a whole foreign chain arrives.

use vstd::prelude::*;
use crate::block::{block_digest, clone_block, Block, BlockV};
use crate::clock::now_seconds;
use crate::encoding::copy_bytes;
use crate::fractal::{fractal_with_seed, FractalData, FractalDataV, Sierpinski, SierpinskiV};
use crate::miner::{meets_difficulty, mining_attempt, Miner};
use crate::transaction::{
    coinbase_txid, make_coinbase_txid, tx_digest, Transaction, TransactionV, TxInput, TxInputV,
    TxOutput, TxOutputV,
};

verus! {

/// The expected time to mine one block, in seconds.
pub const BLOCK_GENERATION_INTERVAL: i64 = 10;

/// The number of blocks after which the difficulty is reconsidered.
pub const DIFFICULTY_ADJUSTMENT_INTERVAL: u64 = 10;

/// The clock-skew tolerance for foreign block timestamps, in seconds.
pub const TIMESTAMP_TOLERANCE: i64 = 30;

/// The coinbase reward minted by each locally assembled block.
pub const BLOCK_REWARD: u64 = 50;

/// The blockchain: the block list and the current mining difficulty.
pub struct Blockchain {
    pub chain: Vec<Block>,
    pub difficulty: usize,
}

/// The mathematical image of a `Blockchain`.
pub ghost struct BlockchainV {
    pub chain: Seq<BlockV>,
    pub difficulty: usize,
}

impl View for Blockchain {
    type V = BlockchainV;

    open spec fn view(&self) -> BlockchainV {
        BlockchainV { chain: self.chain.deep_view(), difficulty: self.difficulty }
    }
}

/// Every block after the first names its predecessor's hash.
pub open spec fn chain_linked(chain: Seq<BlockV>) -> bool {
    forall|i: int| 0 < i < chain.len() ==> (#[trigger] chain[i]).previous_hash == chain[i - 1].hash
}

/// Block indexes count positions: the block at position `i` has index `i`.
pub open spec fn chain_indexed(chain: Seq<BlockV>) -> bool {
    forall|i: int| 0 <= i < chain.len() ==> (#[trigger] chain[i]).index == i
}

/// A well-formed chain: nonempty, indexed from zero, and hash-linked.
pub open spec fn chain_wf(c: BlockchainV) -> bool {
    c.chain.len() > 0 && chain_indexed(c.chain) && chain_linked(c.chain)
}

/// Chain linkage, spelled out: in a well-formed chain every block past
/// the first stores the hash of the block before it.
pub proof fn lemma_chain_linkage(c: BlockchainV, i: int)
    requires
        chain_wf(c),
        0 < i < c.chain.len(),
    ensures
        c.chain[i].previous_hash == c.chain[i - 1].hash,
{
}

/// The four rules a block must pass to extend `prev` at a given
/// difficulty and clock reading: sequential index, correct parent hash,
/// enough proof of work on a hash that recomputes from the content, and
/// a timestamp neither too far in the future nor before the parent's.
pub open spec fn spec_block_valid(new: BlockV, prev: BlockV, difficulty: int, now: i64) -> bool {
    &&& new.index == prev.index + 1
    &&& new.previous_hash == prev.hash
    &&& meets_difficulty(new.hash, difficulty)
    &&& new.hash == block_digest(new)
    &&& new.timestamp <= now + TIMESTAMP_TOLERANCE
    &&& new.timestamp >= prev.timestamp
}

/// The validity rules that do not read the clock.
pub open spec fn spec_block_valid_timeless(new: BlockV, prev: BlockV, difficulty: int) -> bool {
    &&& new.index == prev.index + 1
    &&& new.previous_hash == prev.hash
    &&& meets_difficulty(new.hash, difficulty)
    &&& new.hash == block_digest(new)
    &&& new.timestamp >= prev.timestamp
}

/// A block can never validly extend itself: its index would have to
/// exceed itself by one. This is what discards a duplicate of the chain
/// tip, however often it is resubmitted.
pub proof fn lemma_resubmitted_tip_invalid(b: BlockV, difficulty: int, now: i64)
    ensures
        !spec_block_valid(b, b, difficulty, now),
{
}

/// The candidate block local mining hands the search, assembled at
/// clock reading `ts`: the next index, the template fractal, the
/// parent's hash, and nonce zero.
pub open spec fn local_candidate(
    prev: BlockV,
    fractal: FractalDataV,
    transactions: Seq<TransactionV>,
    ts: i64,
) -> BlockV {
    BlockV {
        index: (prev.index + 1) as u64,
        timestamp: ts,
        fractal,
        transactions,
        previous_hash: prev.hash,
        hash: Seq::empty(),
        nonce: 0,
    }
}

/// No nonce at all mines the local candidate assembled at clock
/// reading `ts`: the whole search space misses the target.
pub open spec fn mining_exhausted(
    prev: BlockV,
    fractal: FractalDataV,
    transactions: Seq<TransactionV>,
    difficulty: int,
    ts: i64,
) -> bool {
    forall|n: u64|
        !meets_difficulty(
            block_digest(
                #[trigger] mining_attempt(local_candidate(prev, fractal, transactions, ts), fractal, n),
            ),
            difficulty,
        )
}

/// The ASCII text of the genesis coinbase marker.
pub open spec fn genesis_tag() -> Seq<u8> {
    seq![103u8, 101u8, 110u8, 101u8, 115u8, 105u8, 115u8]
}

/// The ASCII text of the placeholder address the genesis reward pays.
pub open spec fn genesis_address() -> Seq<u8> {
    seq![
        103u8,
        101u8,
        110u8,
        101u8,
        115u8,
        105u8,
        115u8,
        95u8,
        97u8,
        100u8,
        100u8,
        114u8,
        101u8,
        115u8,
        115u8,
    ]
}

/// The parent marker the genesis block stores: one ASCII zero.
pub open spec fn genesis_parent() -> Seq<u8> {
    seq![48u8]
}

/// The fractal template the genesis block is mined over.
pub open spec fn genesis_fractal() -> FractalDataV {
    FractalDataV::Sierpinski(SierpinskiV { depth: 0, seed: 0, vertices: Seq::empty() })
}

/// The genesis coinbase assembled at clock reading `ts`: one marker
/// input and one reward output to the placeholder address, its id the
/// pre-signature digest of its own content.
pub open spec fn genesis_coinbase(ts: i64) -> TransactionV {
    let unsigned = TransactionV {
        id: Seq::empty(),
        timestamp: ts,
        inputs: seq![
            TxInputV {
                txid: coinbase_txid(),
                vout: usize::MAX,
                script_sig: genesis_tag(),
                pub_key: Seq::empty(),
                sequence: 0,
            },
        ],
        outputs: seq![TxOutputV { value: BLOCK_REWARD, script_pub_key: genesis_address() }],
    };
    TransactionV { id: tx_digest(unsigned), ..unsigned }
}

/// The genesis block before mining, assembled at block clock reading
/// `tb` and coinbase clock reading `tt`.
pub open spec fn genesis_template(tb: i64, tt: i64) -> BlockV {
    BlockV {
        index: 0,
        timestamp: tb,
        fractal: genesis_fractal(),
        transactions: seq![genesis_coinbase(tt)],
        previous_hash: genesis_parent(),
        hash: Seq::empty(),
        nonce: 0,
    }
}

/// No nonce at all mines the genesis template assembled at these two
/// clock readings.
pub open spec fn genesis_exhausted(difficulty: int, tb: i64, tt: i64) -> bool {
    forall|n: u64|
        !meets_difficulty(
            block_digest(#[trigger] mining_attempt(genesis_template(tb, tt), genesis_fractal(), n)),
            difficulty,
        )
}

/// The difficulty after the adjustment check that follows an accepted
/// block. On every `DIFFICULTY_ADJUSTMENT_INTERVAL`-th block the time
/// the last interval took is held against the target rate: much too
/// fast raises the difficulty, much too slow lowers it, and it never
/// goes below one.
pub open spec fn adjusted_difficulty(c: BlockchainV) -> usize {
    if c.chain.len() == 0 {
        c.difficulty
    } else {
        let latest = c.chain.last();
        if latest.index % DIFFICULTY_ADJUSTMENT_INTERVAL == 0 && latest.index != 0 && latest.index
            - DIFFICULTY_ADJUSTMENT_INTERVAL < c.chain.len() {
            let previous = c.chain[latest.index - DIFFICULTY_ADJUSTMENT_INTERVAL];
            let time_taken = latest.timestamp - previous.timestamp;
            let expected = (DIFFICULTY_ADJUSTMENT_INTERVAL as int) * (
            BLOCK_GENERATION_INTERVAL as int);
            if time_taken < expected / 2 {
                if c.difficulty < usize::MAX {
                    (c.difficulty + 1) as usize
                } else {
                    c.difficulty
                }
            } else if time_taken > expected * 2 && c.difficulty > 1 {
                (c.difficulty - 1) as usize
            } else {
                c.difficulty
            }
        } else {
            c.difficulty
        }
    }
}

/// The difficulty floor: whatever the timing of the last interval, an
/// adjustment never takes a difficulty of at least one below one.
pub proof fn lemma_difficulty_floor(c: BlockchainV)
    requires
        c.difficulty >= 1,
    ensures
        adjusted_difficulty(c) >= 1,
{
}

impl Blockchain {
    /// Reconsiders the difficulty after an accepted block. The chain is
    /// untouched; the difficulty moves exactly as `adjusted_difficulty`
    /// says, and never below one.
    pub fn adjust_difficulty(&mut self)
        requires
            old(self)@.chain.len() > 0,
        ensures
            final(self)@.chain == old(self)@.chain,
            final(self)@.difficulty == adjusted_difficulty(old(self)@),
            old(self)@.difficulty >= 1 ==> final(self)@.difficulty >= 1,
    {
        let last = self.chain.len() - 1;
        let latest_index = self.chain[last].index;
        if latest_index % DIFFICULTY_ADJUSTMENT_INTERVAL == 0 && latest_index != 0 {
            let pos = latest_index - DIFFICULTY_ADJUSTMENT_INTERVAL;
            if pos < self.chain.len() as u64 {
                let latest_ts = self.chain[last].timestamp;
                let previous_ts = self.chain[pos as usize].timestamp;
                let time_taken: i128 = latest_ts as i128 - previous_ts as i128;
                let expected: i128 = 100;
                proof {
                    assert(expected == (DIFFICULTY_ADJUSTMENT_INTERVAL as int) * (
                    BLOCK_GENERATION_INTERVAL as int));
                }
                if time_taken < expected / 2 {
                    if self.difficulty < usize::MAX {
                        self.difficulty = self.difficulty + 1;
                    }
                } else if time_taken > expected * 2 {
                    if self.difficulty > 1 {
                        self.difficulty = self.difficulty - 1;
                    }
                }
            }
        }
    }

    /// Checks the validity rules against an explicit clock reading.
    pub fn is_block_valid_at(&self, new_block: &Block, previous_block: &Block, now: i64) -> (r:
        bool)
        ensures
            r == spec_block_valid(new_block@, previous_block@, self@.difficulty as int, now),
    {
        if previous_block.index != u64::MAX && new_block.index == previous_block.index + 1 {
        } else {
            proof {
                assert(!spec_block_valid(
                    new_block@,
                    previous_block@,
                    self@.difficulty as int,
                    now,
                ));
            }
            return false;
        }
        if !crate::encoding::bytes_eq(&new_block.previous_hash, &previous_block.hash) {
            return false;
        }
        if !crate::miner::check_difficulty(&new_block.hash, self.difficulty) {
            return false;
        }
        let recomputed = new_block.calculate_hash();
        if !crate::encoding::bytes_eq(&new_block.hash, &recomputed) {
            return false;
        }
        if new_block.timestamp as i128 > now as i128 + TIMESTAMP_TOLERANCE as i128 {
            return false;
        }
        if new_block.timestamp < previous_block.timestamp {
            return false;
        }
        true
    }

    /// Checks the validity rules against the clock now. Acceptance
    /// implies every rule that does not read the clock; the exact
    /// outcome is the four rules at some clock reading.
    pub fn is_block_valid(&self, new_block: &Block, previous_block: &Block) -> (r: bool)
        ensures
            r ==> spec_block_valid_timeless(
                new_block@,
                previous_block@,
                self@.difficulty as int,
            ),
            exists|now: i64|
                r == spec_block_valid(new_block@, previous_block@, self@.difficulty as int, now),
    {
        let now = now_seconds();
        let r = self.is_block_valid_at(new_block, previous_block, now);
        proof {
            assert(r == spec_block_valid(
                new_block@,
                previous_block@,
                self@.difficulty as int,
                now,
            ));
        }
        r
    }

    /// Accepts or discards one foreign block against an explicit clock
    /// reading: a valid block is appended and the difficulty is
    /// reconsidered; an invalid one leaves the chain untouched.
    /// Well-formedness is preserved either way.
    pub fn add_block_from_network_at(&mut self, block: Block, now: i64) -> (r: bool)
        requires
            old(self)@.chain.len() > 0,
        ensures
            r == spec_block_valid(
                block@,
                old(self)@.chain.last(),
                old(self)@.difficulty as int,
                now,
            ),
            r ==> final(self)@.chain == old(self)@.chain.push(block@) && final(self)@.difficulty
                == adjusted_difficulty(
                BlockchainV { chain: old(self)@.chain.push(block@), ..old(self)@ },
            ),
            !r ==> final(self)@ == old(self)@,
            chain_wf(old(self)@) ==> chain_wf(final(self)@),
            old(self)@.difficulty >= 1 ==> final(self)@.difficulty >= 1,
    {
        let last = self.chain.len() - 1;
        let valid = self.is_block_valid_at(&block, &self.chain[last], now);
        let ghost bv = block@;
        if valid {
            let ghost before = self@;
            self.chain.push(block);
            proof {
                assert(self@.chain =~= before.chain.push(bv));
                if chain_wf(before) {
                    assert(before.chain.last().index == before.chain.len() - 1);
                    assert forall|i: int| 0 <= i < self@.chain.len() implies (
                    #[trigger] self@.chain[i]).index == i by {
                        if i < before.chain.len() {
                            assert(self@.chain[i] == before.chain[i]);
                        } else {
                            assert(self@.chain[i] == bv);
                        }
                    }
                    assert forall|i: int| 0 < i < self@.chain.len() implies (
                    #[trigger] self@.chain[i]).previous_hash == self@.chain[i - 1].hash by {
                        if i < before.chain.len() {
                            assert(self@.chain[i] == before.chain[i]);
                            assert(self@.chain[i - 1] == before.chain[i - 1]);
                        } else {
                            assert(self@.chain[i] == bv);
                            assert(self@.chain[i - 1] == before.chain.last());
                        }
                    }
                    assert(chain_indexed(self@.chain));
                    assert(chain_linked(self@.chain));
                }
            }
            self.adjust_difficulty();
            true
        } else {
            false
        }
    }

    /// Accepts or discards one foreign block against the clock now.
    /// Acceptance appends exactly that block and implies its timeless
    /// validity; rejection leaves the chain untouched. Submitting the
    /// accepted tip a second time is always rejected: its index can no
    /// longer be one past the tip's.
    pub fn add_block_from_network(&mut self, block: Block) -> (r: bool)
        requires
            old(self)@.chain.len() > 0,
        ensures
            r ==> spec_block_valid_timeless(
                block@,
                old(self)@.chain.last(),
                old(self)@.difficulty as int,
            ) && final(self)@.chain == old(self)@.chain.push(block@) && final(self)@.difficulty
                == adjusted_difficulty(
                BlockchainV { chain: old(self)@.chain.push(block@), ..old(self)@ },
            ),
            !r ==> final(self)@ == old(self)@,
            exists|now: i64|
                r == spec_block_valid(
                    block@,
                    old(self)@.chain.last(),
                    old(self)@.difficulty as int,
                    now,
                ),
            chain_wf(old(self)@) ==> chain_wf(final(self)@),
            old(self)@.difficulty >= 1 ==> final(self)@.difficulty >= 1,
    {
        let ghost bv = block@;
        let now = now_seconds();
        let r = self.add_block_from_network_at(block, now);
        proof {
            assert(r == spec_block_valid(
                bv,
                old(self)@.chain.last(),
                old(self)@.difficulty as int,
                now,
            ));
        }
        r
    }

    /// Replaces this chain with a longer foreign snapshot, and keeps it
    /// otherwise: the naive longest-chain rule. The snapshot is taken
    /// as a whole, without re-validating its blocks; the local
    /// difficulty is kept.
    pub fn replace_if_longer(&mut self, other: Blockchain) -> (r: bool)
        ensures
            r == (other@.chain.len() > old(self)@.chain.len()),
            r ==> final(self)@.chain == other@.chain && final(self)@.difficulty
                == old(self)@.difficulty,
            !r ==> final(self)@ == old(self)@,
    {
        if other.chain.len() > self.chain.len() {
            self.chain = other.chain;
            true
        } else {
            false
        }
    }

    /// Mines and appends one block over the given transactions: the
    /// next index, the current clock reading, the template fractal
    /// seeded with the winning nonce, and the previous tip's hash,
    /// searched until the difficulty target is met. The local chain is
    /// trusted, so the block is appended without re-validation, and the
    /// difficulty is then reconsidered. `None` comes back exactly when
    /// the whole nonce space missed the target for the candidate
    /// assembled at some clock reading; the chain is then untouched.
    pub fn add_block(&mut self, fractal: &FractalData, transactions: Vec<Transaction>) -> (r:
        Option<Block>)
        requires
            chain_wf(old(self)@),
        ensures
            match r {
                Some(b) => {
                    &&& final(self)@.chain == old(self)@.chain.push(b@)
                    &&& b@.index == old(self)@.chain.last().index + 1
                    &&& b@.previous_hash == old(self)@.chain.last().hash
                    &&& b@.transactions == transactions.deep_view()
                    &&& b@.fractal == fractal_with_seed(fractal@, b@.nonce)
                    &&& b@.hash == block_digest(b@)
                    &&& meets_difficulty(b@.hash, old(self)@.difficulty as int)
                    &&& final(self)@.difficulty == adjusted_difficulty(
                        BlockchainV { chain: old(self)@.chain.push(b@), ..old(self)@ },
                    )
                    &&& chain_wf(final(self)@)
                },
                None => final(self)@ == old(self)@ && exists|ts: i64|
                    mining_exhausted(
                        old(self)@.chain.last(),
                        fractal@,
                        transactions.deep_view(),
                        old(self)@.difficulty as int,
                        ts,
                    ),
            },
            old(self)@.difficulty >= 1 ==> final(self)@.difficulty >= 1,
    {
        let ghost txs_v = transactions.deep_view();
        let last = self.chain.len() - 1;
        proof {
            assert(self@.chain[last as int].index == last as u64);
        }
        let candidate = Block {
            index: self.chain[last].index + 1,
            timestamp: now_seconds(),
            fractal: fractal.duplicate(),
            transactions,
            previous_hash: copy_bytes(&self.chain[last].hash),
            hash: Vec::new(),
            nonce: 0,
        };
        let ghost cand_v = candidate@;
        proof {
            assert(cand_v.hash =~= Seq::<u8>::empty());
            assert(cand_v == local_candidate(self@.chain.last(), fractal@, txs_v, cand_v.timestamp));
        }
        match Miner::mine_block(self.difficulty, fractal, candidate) {
            Some(mined) => {
                let ghost before = self@;
                let kept = clone_block(&mined);
                self.chain.push(kept);
                proof {
                    assert(self@.chain =~= before.chain.push(mined@));
                    assert(before.chain.last().index == before.chain.len() - 1);
                    assert forall|i: int| 0 <= i < self@.chain.len() implies (
                    #[trigger] self@.chain[i]).index == i by {
                        if i < before.chain.len() {
                            assert(self@.chain[i] == before.chain[i]);
                        } else {
                            assert(self@.chain[i] == mined@);
                        }
                    }
                    assert forall|i: int| 0 < i < self@.chain.len() implies (
                    #[trigger] self@.chain[i]).previous_hash == self@.chain[i - 1].hash by {
                        if i < before.chain.len() {
                            assert(self@.chain[i] == before.chain[i]);
                            assert(self@.chain[i - 1] == before.chain[i - 1]);
                        } else {
                            assert(self@.chain[i] == mined@);
                            assert(self@.chain[i - 1] == before.chain.last());
                        }
                    }
                    assert(chain_indexed(self@.chain));
                    assert(chain_linked(self@.chain));
                }
                self.adjust_difficulty();
                Some(mined)
            },
            None => {
                proof {
                    assert forall|n: u64|
                        !meets_difficulty(
                            block_digest(
                                #[trigger] mining_attempt(
                                    local_candidate(
                                        self@.chain.last(),
                                        fractal@,
                                        txs_v,
                                        cand_v.timestamp,
                                    ),
                                    fractal@,
                                    n,
                                ),
                            ),
                            self@.difficulty as int,
                        ) by {
                        assert(n >= cand_v.nonce);
                        assert(!meets_difficulty(
                            block_digest(mining_attempt(cand_v, fractal@, n)),
                            self@.difficulty as int,
                        ));
                    }
                    assert(mining_exhausted(
                        self@.chain.last(),
                        fractal@,
                        txs_v,
                        self@.difficulty as int,
                        cand_v.timestamp,
                    ));
                }
                None
            },
        }
    }

    /// Builds a fresh chain: a genesis block holding one placeholder
    /// coinbase transaction that pays the reward to the placeholder
    /// genesis address, parented on the single-zero marker and mined at
    /// the given difficulty. `None` comes back exactly when no nonce at
    /// all meets the target for the template assembled at some pair of
    /// clock readings.
    pub fn new(difficulty: usize) -> (r: Option<Blockchain>)
        ensures
            match r {
                Some(c) => {
                    &&& c@.difficulty == difficulty
                    &&& c@.chain.len() == 1
                    &&& c@.chain[0].index == 0
                    &&& c@.chain[0].hash == block_digest(c@.chain[0])
                    &&& meets_difficulty(c@.chain[0].hash, difficulty as int)
                    &&& c@.chain[0].previous_hash == genesis_parent()
                    &&& c@.chain[0].fractal == fractal_with_seed(
                        genesis_fractal(),
                        c@.chain[0].nonce,
                    )
                    &&& c@.chain[0].transactions == seq![
                        genesis_coinbase(c@.chain[0].transactions[0].timestamp),
                    ]
                    &&& c@.chain[0].transactions[0].inputs[0].txid == coinbase_txid()
                    &&& c@.chain[0].transactions[0].outputs[0].value == BLOCK_REWARD
                    &&& c@.chain[0].transactions[0].outputs[0].script_pub_key == genesis_address()
                    &&& chain_wf(c@)
                },
                None => exists|tb: i64, tt: i64| genesis_exhausted(difficulty as int, tb, tt),
            },
    {
        let coinbase_input = TxInput {
            txid: make_coinbase_txid(),
            vout: usize::MAX,
            script_sig: ascii_genesis_tag(),
            pub_key: Vec::new(),
            sequence: 0,
        };
        let ghost in_v = coinbase_input.deep_view();
        let coinbase_output = TxOutput {
            value: BLOCK_REWARD,
            script_pub_key: ascii_genesis_address(),
        };
        let ghost out_v = coinbase_output.deep_view();
        let mut inputs: Vec<TxInput> = Vec::new();
        inputs.push(coinbase_input);
        let mut outputs: Vec<TxOutput> = Vec::new();
        outputs.push(coinbase_output);
        proof {
            assert(inputs.deep_view() =~= seq![in_v]);
            assert(outputs.deep_view() =~= seq![out_v]);
        }
        let coinbase_tx = Transaction::new(inputs, outputs);
        let mut transactions: Vec<Transaction> = Vec::new();
        let ghost cb_v = coinbase_tx@;
        proof {
            let unsigned = TransactionV {
                id: Seq::<u8>::empty(),
                timestamp: cb_v.timestamp,
                inputs: seq![in_v],
                outputs: seq![out_v],
            };
            assert(crate::transaction::enc_tx_sighash(cb_v) == crate::transaction::enc_tx_sighash(
                unsigned,
            ));
            assert(seq![in_v] =~= genesis_coinbase(cb_v.timestamp).inputs);
            assert(seq![out_v] =~= genesis_coinbase(cb_v.timestamp).outputs);
            assert(crate::transaction::enc_tx_sighash(unsigned)
                == crate::transaction::enc_tx_sighash(genesis_coinbase(cb_v.timestamp)));
            assert(cb_v == genesis_coinbase(cb_v.timestamp));
        }
        transactions.push(coinbase_tx);
        proof {
            assert(transactions.deep_view() =~= seq![cb_v]);
        }
        let template = Block {
            index: 0,
            timestamp: now_seconds(),
            fractal: FractalData::Sierpinski(
                Sierpinski { depth: 0, seed: 0, vertices: Vec::new() },
            ),
            transactions,
            previous_hash: ascii_zero(),
            hash: Vec::new(),
            nonce: 0,
        };
        let ghost template_v = template@;
        let template_fractal = FractalData::Sierpinski(
            Sierpinski { depth: 0, seed: 0, vertices: Vec::new() },
        );
        proof {
            assert(template_v.fractal == genesis_fractal());
            assert(template_fractal@ == genesis_fractal());
            assert(template_v.hash =~= Seq::<u8>::empty());
            assert(template_v == genesis_template(template_v.timestamp, cb_v.timestamp));
        }
        match Miner::mine_block(difficulty, &template_fractal, template) {
            Some(genesis) => {
                let ghost genesis_v = genesis@;
                let mut chain: Vec<Block> = Vec::new();
                chain.push(genesis);
                let r = Blockchain { chain, difficulty };
                proof {
                    assert(r@.chain =~= seq![genesis_v]);
                    assert(chain_indexed(r@.chain));
                    assert(chain_linked(r@.chain));
                    assert(r@.chain[0].transactions =~= seq![
                        genesis_coinbase(r@.chain[0].transactions[0].timestamp),
                    ]);
                }
                Some(r)
            },
            None => {
                proof {
                    assert forall|n: u64|
                        !meets_difficulty(
                            block_digest(
                                #[trigger] mining_attempt(
                                    genesis_template(template_v.timestamp, cb_v.timestamp),
                                    genesis_fractal(),
                                    n,
                                ),
                            ),
                            difficulty as int,
                        ) by {
                        assert(n >= template_v.nonce);
                        assert(!meets_difficulty(
                            block_digest(mining_attempt(template_v, template_fractal@, n)),
                            difficulty as int,
                        ));
                    }
                    assert(genesis_exhausted(
                        difficulty as int,
                        template_v.timestamp,
                        cb_v.timestamp,
                    ));
                }
                None
            },
        }
    }
}

/// A fresh copy of a whole blockchain, for chain-snapshot replies.
pub fn clone_blockchain(b: &Blockchain) -> (r: Blockchain)
    ensures
        r@ == b@,
{
    let mut chain: Vec<Block> = Vec::new();
    let mut i: usize = 0;
    while i < b.chain.len()
        invariant
            i <= b.chain.len(),
            chain.deep_view() == b.chain.deep_view().take(i as int),
        decreases b.chain.len() - i,
    {
        let entry = clone_block(&b.chain[i]);
        let ghost pre = chain.deep_view();
        let ghost ev = entry@;
        chain.push(entry);
        proof {
            assert(chain.deep_view() =~= pre.push(ev));
            assert(chain.deep_view() =~= b.chain.deep_view().take(i + 1));
        }
        i = i + 1;
    }
    proof {
        assert(b.chain.deep_view().take(b.chain.deep_view().len() as int) =~= b.chain.deep_view());
    }
    Blockchain { chain, difficulty: b.difficulty }
}

/// The ASCII bytes of the genesis coinbase marker.
fn ascii_genesis_tag() -> (r: Vec<u8>)
    ensures
        r@ == genesis_tag(),
{
    let mut v: Vec<u8> = Vec::new();
    v.push(103);
    v.push(101);
    v.push(110);
    v.push(101);
    v.push(115);
    v.push(105);
    v.push(115);
    proof {
        assert(v@ =~= genesis_tag());
    }
    v
}

/// The ASCII bytes of the placeholder genesis reward address.
fn ascii_genesis_address() -> (r: Vec<u8>)
    ensures
        r@ == genesis_address(),
{
    let mut v: Vec<u8> = Vec::new();
    v.push(103);
    v.push(101);
    v.push(110);
    v.push(101);
    v.push(115);
    v.push(105);
    v.push(115);
    v.push(95);
    v.push(97);
    v.push(100);
    v.push(100);
    v.push(114);
    v.push(101);
    v.push(115);
    v.push(115);
    proof {
        assert(v@ =~= genesis_address());
    }
    v
}

/// The ASCII bytes of the genesis parent marker, a single zero digit.
fn ascii_zero() -> (r: Vec<u8>)
    ensures
        r@ == genesis_parent(),
{
    let mut v: Vec<u8> = Vec::new();
    v.push(48);
    proof {
        assert(v@ =~= genesis_parent());
    }
    v
}

} // verus!
