//! The node's decision logic, free of any network or clock plumbing: a
//! chain plus a transaction pool, a handler that maps each inbound
//! gossip message to a state change and an outward action, and the two
//! request-triggered paths, spending and mining. The surrounding shell
//! performs the actions (publish, persist, notify) and feeds events
//! back in.

use vstd::prelude::*;
use crate::block::{block_digest, clone_block, Block};
use crate::chain::{
    adjusted_difficulty, chain_wf, clone_blockchain, genesis_exhausted, mining_exhausted,
    spec_block_valid, spec_block_valid_timeless, Blockchain, BlockchainV, BLOCK_REWARD,
};
use crate::crypto::vk_of;
use crate::encoding::{bytes_eq, copy_bytes};
use crate::fractal::{fractal_with_seed, FractalData};
use crate::miner::meets_difficulty;
use crate::transaction::{
    clone_tx, clone_txs, coinbase_txid, enc_tx_sighash, make_coinbase_txid, tx_digest,
    tx_verifies, Transaction, TransactionV, TxInput, TxInputV, TxOutput, TxOutputV,
};
use crate::utxo::{lemma_sum_concat, utxo_sum, utxos_for, UtxoV};
use crate::wallet::{address_of, Wallet};

verus! {

/// The serialized text pushed to one UI subscriber.
pub struct ClientMessage(pub String);

/// The four message kinds peers gossip.
pub enum P2pMessage {
    /// "Send me your full chain."
    ChainRequest,
    /// A full chain snapshot, answering a request.
    ChainResponse(Blockchain),
    /// A newly accepted block.
    Block(Block),
    /// A newly submitted transaction.
    Transaction(Transaction),
}

/// What the shell must do after a message is handled.
pub enum NodeAction {
    /// Nothing to do.
    Nothing,
    /// Push this accepted block to UI subscribers and persist the chain.
    AnnounceBlock(Block),
    /// Reply with this chain snapshot.
    ShareChain(Blockchain),
    /// The chain was replaced wholesale; persist it.
    ChainReplaced,
}

/// Whether the pool already holds a transaction with this id.
pub open spec fn pool_has_id(pool: Seq<TransactionV>, id: Seq<u8>) -> bool {
    exists|j: int| 0 <= j < pool.len() && pool[j].id == id
}

/// A node: the shared chain-plus-pool state every mutation path goes
/// through.
pub struct Node {
    pub blockchain: Blockchain,
    pub pool: Vec<Transaction>,
}

/// The mathematical image of a `Node`.
pub ghost struct NodeV {
    pub blockchain: BlockchainV,
    pub pool: Seq<TransactionV>,
}

impl View for Node {
    type V = NodeV;

    open spec fn view(&self) -> NodeV {
        NodeV { blockchain: self.blockchain@, pool: self.pool.deep_view() }
    }
}

/// A well-formed node carries a well-formed chain.
pub open spec fn node_wf(n: NodeV) -> bool {
    chain_wf(n.blockchain)
}

/// Why a spend request was refused.
#[derive(Debug)]
pub enum SubmitError {
    /// The sender's unspent outputs sum to less than the amount.
    InsufficientFunds,
}

/// The input references of a transaction match a selection of unspent
/// outputs, position by position.
pub open spec fn inputs_match_selection(inputs: Seq<crate::transaction::TxInputV>, sel: Seq<UtxoV>) -> bool {
    inputs.len() == sel.len() && forall|i: int|
        0 <= i < sel.len() ==> (#[trigger] inputs[i]).txid == sel[i].txid && inputs[i].vout
            == sel[i].vout
}

/// The shape of a spend the node builds: it consumes the shortest
/// prefix of the sender's unspent outputs that covers the amount, pays
/// the amount to the receiver, and returns the difference, if any, to
/// the sender.
pub open spec fn spend_selection_at(
    tx: TransactionV,
    chain: Seq<crate::block::BlockV>,
    sender: Seq<u8>,
    to: Seq<u8>,
    amount: u64,
    n: int,
) -> bool {
    let avail = utxos_for(chain, sender);
    &&& 0 <= n <= avail.len()
    &&& utxo_sum(avail.take(n)) >= amount
    &&& (n == 0 || utxo_sum(avail.take(n - 1)) < amount)
    &&& inputs_match_selection(tx.inputs, avail.take(n))
    &&& if utxo_sum(avail.take(n)) > amount {
        tx.outputs.len() == 2 && tx.outputs[0] == TxOutputV {
            value: amount,
            script_pub_key: to,
        } && tx.outputs[1] == TxOutputV {
            value: (utxo_sum(avail.take(n)) - amount) as u64,
            script_pub_key: sender,
        }
    } else {
        tx.outputs.len() == 1 && tx.outputs[0] == TxOutputV {
            value: amount,
            script_pub_key: to,
        }
    }
}

/// The spend consumes the shortest covering prefix of the sender's
/// unspent outputs, for some prefix length.
pub open spec fn spend_selection(
    tx: TransactionV,
    chain: Seq<crate::block::BlockV>,
    sender: Seq<u8>,
    to: Seq<u8>,
    amount: u64,
) -> bool {
    exists|n: int| #[trigger] spend_selection_at(tx, chain, sender, to, amount, n)
}

/// Whether the pool holds a transaction with the given id.
fn pool_contains_id(pool: &Vec<Transaction>, id: &Vec<u8>) -> (r: bool)
    ensures
        r == pool_has_id(pool.deep_view(), id@),
{
    let mut i: usize = 0;
    while i < pool.len()
        invariant
            i <= pool.len(),
            forall|j: int| 0 <= j < i ==> (#[trigger] pool.deep_view()[j]).id != id@,
        decreases pool.len() - i,
    {
        if bytes_eq(&pool[i].id, id) {
            proof {
                assert(pool.deep_view()[i as int].id == id@);
            }
            return true;
        }
        i = i + 1;
    }
    proof {
        if pool_has_id(pool.deep_view(), id@) {
            let j = choose|j: int|
                0 <= j < pool.deep_view().len() && pool.deep_view()[j].id == id@;
            assert(pool.deep_view()[j].id != id@);
        }
    }
    false
}

/// The ASCII text of the coinbase marker on locally mined blocks.
pub open spec fn coinbase_tag() -> Seq<u8> {
    seq![99u8, 111u8, 105u8, 110u8, 98u8, 97u8, 115u8, 101u8]
}

/// The coinbase the node assembles for one mining round, stamped at
/// clock reading `ts`: one marker input whose `vout` records the chain
/// length, and one reward output to the miner's address; its id is the
/// pre-signature digest of its own content.
pub open spec fn mining_coinbase(miner_addr: Seq<u8>, vout: usize, ts: i64) -> TransactionV {
    let unsigned = TransactionV {
        id: Seq::empty(),
        timestamp: ts,
        inputs: seq![
            TxInputV {
                txid: coinbase_txid(),
                vout,
                script_sig: coinbase_tag(),
                pub_key: Seq::empty(),
                sequence: 0,
            },
        ],
        outputs: seq![TxOutputV { value: BLOCK_REWARD, script_pub_key: miner_addr }],
    };
    TransactionV { id: tx_digest(unsigned), ..unsigned }
}

impl Node {
    /// A node over a freshly built chain and an empty pool. `None`
    /// comes back exactly when genesis mining exhausted the nonce space
    /// for the template assembled at some pair of clock readings.
    pub fn new(difficulty: usize) -> (r: Option<Node>)
        ensures
            match r {
                Some(n) => node_wf(n@) && n@.blockchain.difficulty == difficulty && n@.pool.len()
                    == 0,
                None => exists|tb: i64, tt: i64| genesis_exhausted(difficulty as int, tb, tt),
            },
    {
        match Blockchain::new(difficulty) {
            Some(blockchain) => Some(Node { blockchain, pool: Vec::new() }),
            None => None,
        }
    }

    /// Handles one inbound gossip message.
    ///
    /// A `ChainRequest` changes nothing and answers with a snapshot. A
    /// `Block` is validated against the tip: accepted it is appended
    /// and announced, rejected it is dropped silently. A
    /// `ChainResponse` replaces the chain exactly when it is strictly
    /// longer, without re-validation. A `Transaction` enters the pool
    /// exactly when it verifies and its id is not pooled yet.
    /// Re-validating a message twice is harmless: an already appended
    /// block no longer extends the tip, and a pooled id is not pooled
    /// again.
    pub fn handle_message(&mut self, msg: P2pMessage) -> (r: NodeAction)
        requires
            old(self)@.blockchain.chain.len() > 0,
        ensures
            final(self)@.blockchain.chain.len() > 0,
            node_wf(old(self)@) && !(msg is ChainResponse) ==> node_wf(final(self)@),
            old(self)@.blockchain.difficulty >= 1 ==> final(self)@.blockchain.difficulty >= 1,
            msg is ChainRequest ==> final(self)@ == old(self)@ && (r matches
                NodeAction::ShareChain(c) && c@ == old(self)@.blockchain),
            msg matches P2pMessage::Block(b) ==> final(self)@.pool == old(self)@.pool && (
            exists|now: i64|
                (final(self)@.blockchain.chain == old(self)@.blockchain.chain.push(b@))
                    == spec_block_valid(
                    b@,
                    old(self)@.blockchain.chain.last(),
                    old(self)@.blockchain.difficulty as int,
                    now,
                )) && {
                ||| {
                    &&& spec_block_valid_timeless(
                        b@,
                        old(self)@.blockchain.chain.last(),
                        old(self)@.blockchain.difficulty as int,
                    )
                    &&& final(self)@.blockchain.chain == old(self)@.blockchain.chain.push(b@)
                    &&& (r matches NodeAction::AnnounceBlock(a) && a@ == b@)
                }
                ||| (final(self)@ == old(self)@ && r is Nothing)
            },
            msg matches P2pMessage::ChainResponse(c) ==> final(self)@.pool == old(self)@.pool
                && final(self)@.blockchain.difficulty == old(self)@.blockchain.difficulty && (
            node_wf(old(self)@) && chain_wf(c@) ==> node_wf(final(self)@)) && if c@.chain.len()
                > old(self)@.blockchain.chain.len() {
                final(self)@.blockchain.chain == c@.chain && r is ChainReplaced
            } else {
                final(self)@ == old(self)@ && r is Nothing
            },
            msg matches P2pMessage::Transaction(t) ==> final(self)@.blockchain == old(
                self,
            )@.blockchain && r is Nothing && if tx_verifies(t@) && !pool_has_id(
                old(self)@.pool,
                t@.id,
            ) {
                final(self)@.pool == old(self)@.pool.push(t@)
            } else {
                final(self)@.pool == old(self)@.pool
            },
    {
        match msg {
            P2pMessage::ChainRequest => {
                let snapshot = clone_blockchain(&self.blockchain);
                NodeAction::ShareChain(snapshot)
            },
            P2pMessage::Block(b) => {
                let ghost bv = b@;
                let announced = clone_block(&b);
                let added = self.blockchain.add_block_from_network(b);
                proof {
                    let now0 = choose|now: i64|
                        added == spec_block_valid(
                            bv,
                            old(self)@.blockchain.chain.last(),
                            old(self)@.blockchain.difficulty as int,
                            now,
                        );
                    if !added {
                        assert(self@.blockchain.chain.len()
                            != old(self)@.blockchain.chain.push(bv).len());
                    }
                    assert((self@.blockchain.chain == old(self)@.blockchain.chain.push(bv))
                        == spec_block_valid(
                        bv,
                        old(self)@.blockchain.chain.last(),
                        old(self)@.blockchain.difficulty as int,
                        now0,
                    ));
                }
                if added {
                    NodeAction::AnnounceBlock(announced)
                } else {
                    NodeAction::Nothing
                }
            },
            P2pMessage::ChainResponse(c) => {
                let ghost cv = c@;
                let replaced = self.blockchain.replace_if_longer(c);
                if replaced {
                    NodeAction::ChainReplaced
                } else {
                    NodeAction::Nothing
                }
            },
            P2pMessage::Transaction(t) => {
                if t.verify() {
                    if !pool_contains_id(&self.pool, &t.id) {
                        let ghost pre = self.pool.deep_view();
                        let ghost tv = t@;
                        self.pool.push(t);
                        proof {
                            assert(self.pool.deep_view() =~= pre.push(tv));
                        }
                    }
                }
                NodeAction::Nothing
            },
        }
    }

    /// Builds, signs and pools a spend of `amount` from the wallet's
    /// address to `to`. The spend consumes the shortest prefix of the
    /// sender's unspent outputs that covers the amount and returns any
    /// difference to the sender; it comes back signed, verifying, and
    /// already in the pool. The request is refused, before anything is
    /// signed or pooled, exactly when the sender's balance is short.
    pub fn submit_transaction(&mut self, wallet: &Wallet, to: &Vec<u8>, amount: u64) -> (r: Result<
        Transaction,
        SubmitError,
    >)
        requires
            wallet.wf(),
        ensures
            final(self)@.blockchain == old(self)@.blockchain,
            match r {
                Ok(tx) => {
                    &&& utxo_sum(
                        utxos_for(
                            old(self)@.blockchain.chain,
                            address_of(vk_of(wallet@)),
                        ),
                    ) >= amount
                    &&& spend_selection(
                        tx@,
                        old(self)@.blockchain.chain,
                        address_of(vk_of(wallet@)),
                        to@,
                        amount,
                    )
                    &&& tx@.id == tx_digest(tx@)
                    &&& tx_verifies(tx@)
                    &&& final(self)@.pool == old(self)@.pool.push(tx@)
                },
                Err(e) => {
                    &&& e is InsufficientFunds
                    &&& utxo_sum(
                        utxos_for(
                            old(self)@.blockchain.chain,
                            address_of(vk_of(wallet@)),
                        ),
                    ) < amount
                    &&& final(self)@ == old(self)@
                },
            },
    {
        let sender_address = wallet.get_address();
        let avail = self.blockchain.get_utxos(&sender_address);
        let ghost entries = avail.deep_view();
        let mut inputs: Vec<TxInput> = Vec::new();
        let mut acc: u128 = 0;
        let mut i: usize = 0;
        let mut done = amount == 0;
        proof {
            lemma_sum_bounded(entries.take(0));
        }
        while !done && i < avail.len()
            invariant
                i <= avail.len(),
                entries == avail.deep_view(),
                acc as int == utxo_sum(entries.take(i as int)),
                inputs_match_selection(inputs.deep_view(), entries.take(i as int)),
                !done ==> acc < amount as u128,
                done ==> acc >= amount as u128 && (i == 0 || utxo_sum(entries.take(i - 1))
                    < amount),
            decreases avail.len() - i,
        {
            let u = &avail[i];
            proof {
                assert(u.deep_view() == entries[i as int]);
                lemma_sum_bounded(entries.take(i + 1));
                lemma_sum_nonneg_all(entries.take(i as int));
                assert(entries.take(i + 1).drop_last() =~= entries.take(i as int));
                assert(entries.take(i + 1).last() == entries[i as int]);
            }
            let entry = TxInput {
                txid: copy_bytes(&u.txid),
                vout: u.vout,
                script_sig: Vec::new(),
                pub_key: Vec::new(),
                sequence: 0,
            };
            let ghost pre = inputs.deep_view();
            let ghost ev = entry.deep_view();
            inputs.push(entry);
            proof {
                assert(inputs.deep_view() =~= pre.push(ev));
            }
            acc = acc + u.output.value as u128;
            i = i + 1;
            if acc >= amount as u128 {
                done = true;
            }
        }
        if !done {
            proof {
                assert(entries.take(entries.len() as int) =~= entries);
            }
            return Err(SubmitError::InsufficientFunds);
        }
        let ghost n = i as int;
        let total = acc;
        let mut outputs: Vec<TxOutput> = Vec::new();
        let first = TxOutput { value: amount, script_pub_key: copy_bytes(to) };
        let ghost first_v = first.deep_view();
        outputs.push(first);
        proof {
            assert(outputs.deep_view() =~= seq![first_v]);
            assert(first_v == TxOutputV { value: amount, script_pub_key: to@ });
        }
        if total > amount as u128 {
            proof {
                assert(n > 0);
                lemma_sum_bounded(entries.take(n - 1));
                assert(entries.take(n).drop_last() =~= entries.take(n - 1));
                assert(utxo_sum(entries.take(n)) <= utxo_sum(entries.take(n - 1)) + u64::MAX);
                assert(total as int == utxo_sum(entries.take(n)));
                assert(total - amount < 0x1_0000_0000_0000_0000u128);
            }
            let change = (total - amount as u128) as u64;
            let second = TxOutput { value: change, script_pub_key: copy_bytes(&sender_address) };
            let ghost second_v = second.deep_view();
            outputs.push(second);
            proof {
                assert(outputs.deep_view() =~= seq![first_v, second_v]);
                assert(second_v == TxOutputV {
                    value: (utxo_sum(entries.take(n)) - amount) as u64,
                    script_pub_key: address_of(vk_of(wallet@)),
                });
            }
        }
        let ghost inputs_v = inputs.deep_view();
        let ghost outputs_v = outputs.deep_view();
        let mut tx = Transaction::new(inputs, outputs);
        tx.sign(wallet);
        proof {
            let chainv = self@.blockchain.chain;
            let sender = address_of(vk_of(wallet@));
            assert(entries == utxos_for(chainv, sender));
            assert(entries =~= entries.take(n) + entries.skip(n));
            lemma_sum_concat(entries.take(n), entries.skip(n));
            lemma_sum_nonneg_all(entries.skip(n));
            assert(utxo_sum(entries) >= amount);
            assert(tx@.inputs.len() == inputs_v.len());
            assert forall|j: int| 0 <= j < inputs_v.len() implies (#[trigger] tx@.inputs[j]).txid
                == inputs_v[j].txid && tx@.inputs[j].vout == inputs_v[j].vout by {}
            assert(inputs_match_selection(tx@.inputs, entries.take(n)));
            assert(tx@.outputs == outputs_v);
            assert(utxo_sum(utxos_for(chainv, sender).take(n)) >= amount);
            assert(n == 0 || utxo_sum(utxos_for(chainv, sender).take(n - 1)) < amount);
            assert(inputs_match_selection(tx@.inputs, utxos_for(chainv, sender).take(n)));
            if utxo_sum(entries.take(n)) > amount {
                assert(outputs_v.len() == 2);
                assert(outputs_v[0] == TxOutputV { value: amount, script_pub_key: to@ });
                assert(outputs_v[1] == TxOutputV {
                    value: (utxo_sum(entries.take(n)) - amount) as u64,
                    script_pub_key: sender,
                });
            } else {
                assert(outputs_v.len() == 1);
                assert(outputs_v[0] == TxOutputV { value: amount, script_pub_key: to@ });
            }
            assert(spend_selection_at(tx@, chainv, sender, to@, amount, n));
            assert(spend_selection(tx@, chainv, sender, to@, amount));
        }
        let pooled = clone_tx(&tx);
        let ghost pre = self.pool.deep_view();
        let ghost tv = tx@;
        self.pool.push(pooled);
        proof {
            assert(self.pool.deep_view() =~= pre.push(tv));
        }
        Ok(tx)
    }

    /// Assembles a coinbase reward to the miner's address followed by
    /// everything pooled, mines the block over the template fractal
    /// seeded with the winning nonce, appends it and empties the pool.
    /// `None` comes back exactly when the whole nonce space missed the
    /// target for the candidate assembled at some pair of clock
    /// readings; the node is then unchanged.
    #[verifier::rlimit(50)]
    pub fn mine_now(&mut self, wallet: &Wallet, fractal: &FractalData) -> (r: Option<Block>)
        requires
            wallet.wf(),
            node_wf(old(self)@),
        ensures
            node_wf(old(self)@) ==> node_wf(final(self)@),
            old(self)@.blockchain.difficulty >= 1 ==> final(self)@.blockchain.difficulty >= 1,
            match r {
                Some(b) => {
                    &&& final(self)@.blockchain.chain == old(self)@.blockchain.chain.push(b@)
                    &&& final(self)@.pool.len() == 0
                    &&& b@.hash == block_digest(b@)
                    &&& meets_difficulty(b@.hash, old(self)@.blockchain.difficulty as int)
                    &&& b@.fractal == fractal_with_seed(fractal@, b@.nonce)
                    &&& b@.transactions.len() == old(self)@.pool.len() + 1
                    &&& b@.transactions[0] == mining_coinbase(
                        address_of(vk_of(wallet@)),
                        old(self)@.blockchain.chain.len() as usize,
                        b@.transactions[0].timestamp,
                    )
                    &&& b@.transactions[0].inputs[0].txid == coinbase_txid()
                    &&& b@.transactions[0].outputs[0].value == BLOCK_REWARD
                    &&& b@.transactions[0].outputs[0].script_pub_key == address_of(vk_of(wallet@))
                    &&& forall|j: int|
                        0 <= j < old(self)@.pool.len() ==> b@.transactions[j + 1] == old(
                            self,
                        )@.pool[j]
                    &&& final(self)@.blockchain.difficulty == adjusted_difficulty(
                        BlockchainV {
                            chain: old(self)@.blockchain.chain.push(b@),
                            ..old(self)@.blockchain
                        },
                    )
                },
                None => final(self)@ == old(self)@ && exists|tb: i64, tt: i64|
                    #[trigger] mining_exhausted(
                        old(self)@.blockchain.chain.last(),
                        fractal@,
                        seq![
                            mining_coinbase(
                                address_of(vk_of(wallet@)),
                                old(self)@.blockchain.chain.len() as usize,
                                tt,
                            ),
                        ] + old(self)@.pool,
                        old(self)@.blockchain.difficulty as int,
                        tb,
                    ),
            },
    {
        let coinbase_input = TxInput {
            txid: make_coinbase_txid(),
            vout: self.blockchain.chain.len(),
            script_sig: ascii_coinbase_tag(),
            pub_key: Vec::new(),
            sequence: 0,
        };
        let ghost cb_in_v = coinbase_input.deep_view();
        let mut cb_inputs: Vec<TxInput> = Vec::new();
        cb_inputs.push(coinbase_input);
        let cb_out = TxOutput { value: BLOCK_REWARD, script_pub_key: wallet.get_address() };
        let ghost cb_out_v = cb_out.deep_view();
        let mut cb_outputs: Vec<TxOutput> = Vec::new();
        cb_outputs.push(cb_out);
        proof {
            assert(cb_inputs.deep_view() =~= seq![cb_in_v]);
            assert(cb_outputs.deep_view() =~= seq![cb_out_v]);
            assert(cb_in_v.txid == crate::transaction::coinbase_txid());
            assert(cb_out_v.value == BLOCK_REWARD);
            assert(cb_out_v.script_pub_key == address_of(vk_of(wallet@)));
        }
        let coinbase_tx = Transaction::new(cb_inputs, cb_outputs);
        let mut block_transactions: Vec<Transaction> = Vec::new();
        let ghost cbv = coinbase_tx@;
        let ghost miner_addr = address_of(vk_of(wallet@));
        let ghost cb_vout = old(self)@.blockchain.chain.len() as usize;
        proof {
            assert(cbv.inputs == seq![cb_in_v]);
            assert(cbv.outputs == seq![cb_out_v]);
            let unsigned = TransactionV {
                id: Seq::<u8>::empty(),
                timestamp: cbv.timestamp,
                inputs: seq![cb_in_v],
                outputs: seq![cb_out_v],
            };
            assert(enc_tx_sighash(cbv) == enc_tx_sighash(unsigned));
            assert(seq![cb_in_v] =~= mining_coinbase(miner_addr, cb_vout, cbv.timestamp).inputs);
            assert(seq![cb_out_v] =~= mining_coinbase(miner_addr, cb_vout, cbv.timestamp).outputs);
            assert(enc_tx_sighash(unsigned) == enc_tx_sighash(
                mining_coinbase(miner_addr, cb_vout, cbv.timestamp),
            ));
            assert(cbv == mining_coinbase(miner_addr, cb_vout, cbv.timestamp));
        }
        block_transactions.push(coinbase_tx);
        proof {
            assert(block_transactions.deep_view() =~= seq![cbv]);
        }
        let pooled = clone_txs(&self.pool);
        let ghost pool_v = self.pool.deep_view();
        let pooled_iter = pooled;
        proof {
            assert(block_transactions.deep_view() =~= seq![cbv] + pool_v.take(0));
        }
        let mut taken: usize = 0;
        while taken < pooled_iter.len()
            invariant
                taken <= pooled_iter.len(),
                pooled_iter.deep_view() == pool_v,
                block_transactions.deep_view() == seq![cbv] + pool_v.take(taken as int),
            decreases pooled_iter.len() - taken,
        {
            let entry = clone_tx(&pooled_iter[taken]);
            let ghost pre = block_transactions.deep_view();
            let ghost ev = entry@;
            block_transactions.push(entry);
            proof {
                assert(block_transactions.deep_view() =~= pre.push(ev));
                assert(block_transactions.deep_view() =~= seq![cbv] + pool_v.take(taken + 1));
            }
            taken = taken + 1;
        }
        proof {
            assert(pool_v.take(pool_v.len() as int) =~= pool_v);
        }
        match self.blockchain.add_block(fractal, block_transactions) {
            Some(b) => {
                self.pool = Vec::new();
                proof {
                    assert(self.pool.deep_view() =~= Seq::<TransactionV>::empty());
                    assert(b@.transactions == seq![cbv] + pool_v);
                    assert forall|k: int| 0 <= k < pool_v.len() implies b@.transactions[k + 1]
                        == pool_v[k] by {
                        assert((seq![cbv] + pool_v)[k + 1] == pool_v[k]);
                    }
                }
                Some(b)
            },
            None => {
                proof {
                    let tb = choose|ts: i64|
                        mining_exhausted(
                            self@.blockchain.chain.last(),
                            fractal@,
                            seq![cbv] + pool_v,
                            self@.blockchain.difficulty as int,
                            ts,
                        );
                    assert(seq![cbv] + pool_v =~= seq![
                        mining_coinbase(miner_addr, cb_vout, cbv.timestamp),
                    ] + self@.pool);
                    assert(mining_exhausted(
                        self@.blockchain.chain.last(),
                        fractal@,
                        seq![mining_coinbase(miner_addr, cb_vout, cbv.timestamp)] + self@.pool,
                        self@.blockchain.difficulty as int,
                        tb,
                    ));
                }
                None
            },
        }
    }
}

/// What the discovery layer reports about one peer. The token stands
/// for the transport's peer id; the shell maps tokens to real ids.
pub enum PeerEvent {
    /// A peer surfaced through local-network discovery.
    Discovered(u64),
    /// A discovered peer's advertisement lapsed.
    Expired(u64),
    /// A connection to a peer was established.
    Connected(u64),
    /// A connection to a peer was closed.
    Disconnected(u64),
}

/// The peer token an event speaks about.
pub open spec fn peer_event_token(e: PeerEvent) -> u64 {
    match e {
        PeerEvent::Discovered(t) => t,
        PeerEvent::Expired(t) => t,
        PeerEvent::Connected(t) => t,
        PeerEvent::Disconnected(t) => t,
    }
}

/// The token list with every occurrence of one token struck out.
pub open spec fn without_token(s: Seq<u64>, t: u64) -> Seq<u64>
    decreases s.len(),
{
    if s.len() == 0 {
        Seq::empty()
    } else {
        let rest = without_token(s.drop_last(), t);
        if s.last() == t {
            rest
        } else {
            rest.push(s.last())
        }
    }
}

/// Striking a token removes it and nothing else.
proof fn lemma_without_token(s: Seq<u64>, t: u64, q: u64)
    ensures
        !without_token(s, t).contains(t),
        q != t ==> (without_token(s, t).contains(q) <==> s.contains(q)),
    decreases s.len(),
{
    if s.len() > 0 {
        lemma_without_token(s.drop_last(), t, q);
        let rest = without_token(s.drop_last(), t);
        if s.last() != t {
            assert forall|x: u64| rest.push(s.last()).contains(x) implies rest.contains(x) || x
                == s.last() by {
                let i = choose|i: int|
                    0 <= i < rest.push(s.last()).len() && rest.push(s.last())[i] == x;
                if i < rest.len() {
                    assert(rest[i] == x);
                }
            }
            assert(rest.push(s.last())[rest.len() as int] == s.last());
        }
        if q != t {
            if s.contains(q) {
                let i = choose|i: int| 0 <= i < s.len() && s[i] == q;
                if i < s.len() - 1 {
                    assert(s.drop_last()[i] == q);
                    assert(s.drop_last().contains(q));
                    let j = choose|j: int| 0 <= j < rest.len() && rest[j] == q;
                    assert(without_token(s, t)[j] == q);
                } else {
                    assert(s.last() == q);
                    assert(without_token(s, t)[rest.len() as int] == q);
                }
                assert(without_token(s, t).contains(q));
            }
            if without_token(s, t).contains(q) {
                if s.last() != t && !rest.contains(q) {
                    assert(s.contains(q)) by {
                        assert(s[s.len() - 1] == s.last());
                    }
                } else {
                    if rest.contains(q) {
                        let i = choose|i: int| 0 <= i < s.drop_last().len() && s.drop_last()[i] == q;
                        assert(s[i] == q);
                    }
                }
            }
        }
    }
}

/// Whether the peer list holds a token.
fn token_contains(peers: &Vec<u64>, t: u64) -> (r: bool)
    ensures
        r == peers@.contains(t),
{
    let mut i: usize = 0;
    while i < peers.len()
        invariant
            i <= peers.len(),
            forall|j: int| 0 <= j < i ==> peers@[j] != t,
        decreases peers.len() - i,
    {
        if peers[i] == t {
            return true;
        }
        i = i + 1;
    }
    proof {
        if peers@.contains(t) {
            let j = choose|j: int| 0 <= j < peers@.len() && peers@[j] == t;
            assert(peers@[j] != t);
        }
    }
    false
}

/// The peer bookkeeping rule: a discovered or connected peer is
/// registered and a chain request goes out at once, so newcomers catch
/// up immediately; an expired or disconnected peer is dropped and
/// nothing is sent. No other peer's registration moves.
pub fn on_peer_event(peers: &mut Vec<u64>, e: PeerEvent) -> (r: Option<P2pMessage>)
    ensures
        (e is Discovered || e is Connected) ==> final(peers)@.contains(peer_event_token(e)) && (
        r matches Some(m) && m is ChainRequest),
        (e is Expired || e is Disconnected) ==> !final(peers)@.contains(peer_event_token(e))
            && r is None,
        forall|q: u64|
            q != peer_event_token(e) ==> (final(peers)@.contains(q) <==> old(
                peers,
            )@.contains(q)),
{
    let ghost pre = peers@;
    match e {
        PeerEvent::Discovered(t) | PeerEvent::Connected(t) => {
            if !token_contains(peers, t) {
                peers.push(t);
                proof {
                    assert(peers@[pre.len() as int] == t);
                    assert forall|q: u64| q != t implies (peers@.contains(q) <==> pre.contains(
                        q,
                    )) by {
                        if peers@.contains(q) {
                            let i = choose|i: int| 0 <= i < peers@.len() && peers@[i] == q;
                            if i < pre.len() {
                                assert(pre[i] == q);
                            }
                        }
                        if pre.contains(q) {
                            let i = choose|i: int| 0 <= i < pre.len() && pre[i] == q;
                            assert(peers@[i] == q);
                        }
                    }
                }
            }
            Some(P2pMessage::ChainRequest)
        },
        PeerEvent::Expired(t) | PeerEvent::Disconnected(t) => {
            let mut kept: Vec<u64> = Vec::new();
            let mut i: usize = 0;
            while i < peers.len()
                invariant
                    i <= peers.len(),
                    peers@ == pre,
                    kept@ == without_token(pre.take(i as int), t),
                decreases peers.len() - i,
            {
                let v = peers[i];
                proof {
                    assert(pre.take(i + 1).drop_last() =~= pre.take(i as int));
                    assert(pre.take(i + 1).last() == pre[i as int]);
                }
                if v != t {
                    kept.push(v);
                }
                i = i + 1;
            }
            proof {
                assert(pre.take(pre.len() as int) =~= pre);
            }
            *peers = kept;
            proof {
                lemma_without_token(pre, t, t);
                assert forall|q: u64| q != t implies (peers@.contains(q) <==> pre.contains(
                    q,
                )) by {
                    lemma_without_token(pre, t, q);
                }
            }
            None
        },
    }
}

/// The ASCII bytes of the coinbase marker on locally mined blocks.
fn ascii_coinbase_tag() -> (r: Vec<u8>)
    ensures
        r@ == coinbase_tag(),
{
    let mut v: Vec<u8> = Vec::new();
    v.push(99);
    v.push(111);
    v.push(105);
    v.push(110);
    v.push(98);
    v.push(97);
    v.push(115);
    v.push(101);
    proof {
        assert(v@ =~= coinbase_tag());
    }
    v
}

/// Sums of output values stay below the range of a 128-bit counter.
proof fn lemma_sum_bounded(s: Seq<UtxoV>)
    ensures
        utxo_sum(s) <= s.len() * (u64::MAX as int),
    decreases s.len(),
{
    if s.len() > 0 {
        lemma_sum_bounded(s.drop_last());
        assert((s.len() - 1) * (u64::MAX as int) + (u64::MAX as int) == s.len() * (
        u64::MAX as int)) by (nonlinear_arith);
    }
}

/// A sum of output values is never negative.
proof fn lemma_sum_nonneg_all(s: Seq<UtxoV>)
    ensures
        utxo_sum(s) >= 0,
    decreases s.len(),
{
    if s.len() > 0 {
        lemma_sum_nonneg_all(s.drop_last());
    }
}

} // verus!
