//! The unspent-output index. Nothing is stored: every query scans the
//! chain, collects each `(txid, vout)` pair any input consumes, and
//! keeps the outputs addressed to the caller that no input consumed,
//! in chain, transaction, output order.

use vstd::prelude::*;
use crate::block::BlockV;
use crate::chain::Blockchain;
use crate::encoding::{bytes_eq, copy_bytes};
use crate::transaction::{clone_output, TransactionV, TxOutput, TxOutputV};

verus! {

/// One spendable output: the transaction it sits in, its position
/// there, and the output itself.
pub struct Utxo {
    pub txid: Vec<u8>,
    pub vout: usize,
    pub output: TxOutput,
}

/// The mathematical image of a `Utxo`.
pub ghost struct UtxoV {
    pub txid: Seq<u8>,
    pub vout: usize,
    pub output: TxOutputV,
}

impl DeepView for Utxo {
    type V = UtxoV;

    open spec fn deep_view(&self) -> UtxoV {
        UtxoV { txid: self.txid@, vout: self.vout, output: self.output.deep_view() }
    }
}

/// A consumed-output reference collected in the first scan pass.
struct SpentRef {
    txid: Vec<u8>,
    vout: usize,
}

impl DeepView for SpentRef {
    type V = (Seq<u8>, usize);

    closed spec fn deep_view(&self) -> (Seq<u8>, usize) {
        (self.txid@, self.vout)
    }
}

/// The output references one transaction's inputs consume, in order.
pub open spec fn tx_input_refs(t: TransactionV) -> Seq<(Seq<u8>, usize)> {
    Seq::new(t.inputs.len(), |i: int| (t.inputs[i].txid, t.inputs[i].vout))
}

/// The output references a transaction list consumes, in order.
pub open spec fn txs_input_refs(txs: Seq<TransactionV>) -> Seq<(Seq<u8>, usize)>
    decreases txs.len(),
{
    if txs.len() == 0 {
        Seq::empty()
    } else {
        txs_input_refs(txs.drop_last()) + tx_input_refs(txs.last())
    }
}

/// The output references a whole chain consumes, in order.
pub open spec fn chain_input_refs(chain: Seq<BlockV>) -> Seq<(Seq<u8>, usize)>
    decreases chain.len(),
{
    if chain.len() == 0 {
        Seq::empty()
    } else {
        chain_input_refs(chain.drop_last()) + txs_input_refs(chain.last().transactions)
    }
}

/// Whether some input anywhere in the chain consumes `(txid, vout)`.
pub open spec fn spent_in(chain: Seq<BlockV>, txid: Seq<u8>, vout: usize) -> bool {
    chain_input_refs(chain).contains((txid, vout))
}

/// Every output one transaction creates, as candidate entries.
pub open spec fn tx_entries(t: TransactionV) -> Seq<UtxoV> {
    Seq::new(
        t.outputs.len(),
        |i: int| UtxoV { txid: t.id, vout: i as usize, output: t.outputs[i] },
    )
}

/// Every output a transaction list creates, in order.
pub open spec fn txs_entries(txs: Seq<TransactionV>) -> Seq<UtxoV>
    decreases txs.len(),
{
    if txs.len() == 0 {
        Seq::empty()
    } else {
        txs_entries(txs.drop_last()) + tx_entries(txs.last())
    }
}

/// Every output a whole chain creates, in order.
pub open spec fn chain_entries(chain: Seq<BlockV>) -> Seq<UtxoV>
    decreases chain.len(),
{
    if chain.len() == 0 {
        Seq::empty()
    } else {
        chain_entries(chain.drop_last()) + txs_entries(chain.last().transactions)
    }
}

/// Whether an entry belongs to the address and is still unspent.
pub open spec fn utxo_keep(e: UtxoV, chain: Seq<BlockV>, addr: Seq<u8>) -> bool {
    e.output.script_pub_key == addr && !spent_in(chain, e.txid, e.vout)
}

/// The entries kept by the unspent filter, in their given order.
pub open spec fn utxo_filter(entries: Seq<UtxoV>, chain: Seq<BlockV>, addr: Seq<u8>) -> Seq<UtxoV>
    decreases entries.len(),
{
    if entries.len() == 0 {
        Seq::empty()
    } else {
        let rest = utxo_filter(entries.drop_last(), chain, addr);
        if utxo_keep(entries.last(), chain, addr) {
            rest.push(entries.last())
        } else {
            rest
        }
    }
}

/// The unspent outputs of an address: chain order, then transaction
/// order, then output order.
pub open spec fn utxos_for(chain: Seq<BlockV>, addr: Seq<u8>) -> Seq<UtxoV> {
    utxo_filter(chain_entries(chain), chain, addr)
}

/// The sum of the values of a list of outputs.
pub open spec fn utxo_sum(s: Seq<UtxoV>) -> int
    decreases s.len(),
{
    if s.len() == 0 {
        0int
    } else {
        utxo_sum(s.drop_last()) + s.last().output.value
    }
}

/// The balance of an address: the sum over its unspent outputs.
pub open spec fn balance_of(chain: Seq<BlockV>, addr: Seq<u8>) -> int {
    utxo_sum(utxos_for(chain, addr))
}

/// The unspent filter distributes over concatenation.
pub proof fn lemma_filter_concat(
    e1: Seq<UtxoV>,
    e2: Seq<UtxoV>,
    chain: Seq<BlockV>,
    addr: Seq<u8>,
)
    ensures
        utxo_filter(e1 + e2, chain, addr) == utxo_filter(e1, chain, addr) + utxo_filter(
            e2,
            chain,
            addr,
        ),
    decreases e2.len(),
{
    if e2.len() == 0 {
        assert(e1 + e2 =~= e1);
        assert(utxo_filter(e1, chain, addr) + utxo_filter(e2, chain, addr) =~= utxo_filter(
            e1,
            chain,
            addr,
        ));
    } else {
        lemma_filter_concat(e1, e2.drop_last(), chain, addr);
        assert((e1 + e2).drop_last() =~= e1 + e2.drop_last());
        assert((e1 + e2).last() == e2.last());
        if utxo_keep(e2.last(), chain, addr) {
            assert(utxo_filter(e1, chain, addr) + utxo_filter(e2, chain, addr) =~= (utxo_filter(
                e1,
                chain,
                addr,
            ) + utxo_filter(e2.drop_last(), chain, addr)).push(e2.last()));
        }
    }
}

/// Sums distribute over concatenation.
pub proof fn lemma_sum_concat(s1: Seq<UtxoV>, s2: Seq<UtxoV>)
    ensures
        utxo_sum(s1 + s2) == utxo_sum(s1) + utxo_sum(s2),
    decreases s2.len(),
{
    if s2.len() == 0 {
        assert(s1 + s2 =~= s1);
    } else {
        lemma_sum_concat(s1, s2.drop_last());
        assert((s1 + s2).drop_last() =~= s1 + s2.drop_last());
        assert((s1 + s2).last() == s2.last());
    }
}

/// Tests membership in the collected spent list.
fn spent_contains(spent: &Vec<SpentRef>, txid: &Vec<u8>, vout: usize) -> (r: bool)
    ensures
        r == spent.deep_view().contains((txid@, vout)),
{
    let mut i: usize = 0;
    while i < spent.len()
        invariant
            i <= spent.len(),
            forall|j: int| 0 <= j < i ==> #[trigger] spent.deep_view()[j] != (txid@, vout),
        decreases spent.len() - i,
    {
        if spent[i].vout == vout && bytes_eq(&spent[i].txid, txid) {
            proof {
                assert(spent.deep_view()[i as int] == (txid@, vout));
            }
            return true;
        }
        i = i + 1;
    }
    proof {
        if spent.deep_view().contains((txid@, vout)) {
            let j = choose|j: int|
                0 <= j < spent.deep_view().len() && spent.deep_view()[j] == (txid@, vout);
            assert(spent.deep_view()[j] != (txid@, vout));
        }
    }
    false
}

impl Blockchain {
    /// The unspent outputs addressed to `address`: a two-pass scan,
    /// first of everything any input consumes, then of every output
    /// still free, in chain, transaction, output order.
    #[verifier::loop_isolation(false)]
    pub fn get_utxos(&self, address: &Vec<u8>) -> (r: Vec<Utxo>)
        ensures
            r.deep_view() == utxos_for(self@.chain, address@),
    {
        let ghost chain = self@.chain;
        let mut spent: Vec<SpentRef> = Vec::new();
        let mut b: usize = 0;
        while b < self.chain.len()
            invariant
                b <= self.chain.len(),
                spent.deep_view() == chain_input_refs(chain.take(b as int)),
            decreases self.chain.len() - b,
        {
            let block = &self.chain[b];
            proof {
                assert(block.deep_view() == chain[b as int]);
            }
            let ghost base = spent.deep_view();
            let mut t: usize = 0;
            while t < block.transactions.len()
                invariant
                    t <= block.transactions.len(),
                    spent.deep_view() == base + txs_input_refs(
                        block.transactions.deep_view().take(t as int),
                    ),
                decreases block.transactions.len() - t,
            {
                let tx = &block.transactions[t];
                proof {
                    assert(tx.deep_view() == block.transactions.deep_view()[t as int]);
                }
                let ghost tbase = spent.deep_view();
                let mut k: usize = 0;
                while k < tx.inputs.len()
                    invariant
                        k <= tx.inputs.len(),
                        spent.deep_view() == tbase + tx_input_refs(tx@).take(k as int),
                    decreases tx.inputs.len() - k,
                {
                    let entry = SpentRef {
                        txid: copy_bytes(&tx.inputs[k].txid),
                        vout: tx.inputs[k].vout,
                    };
                    let ghost pre = spent.deep_view();
                    let ghost ev = entry.deep_view();
                    spent.push(entry);
                    proof {
                        assert(spent.deep_view() =~= pre.push(ev));
                        assert(tx_input_refs(tx@).take(k + 1) =~= tx_input_refs(tx@).take(
                            k as int,
                        ).push(tx_input_refs(tx@)[k as int]));
                        assert(spent.deep_view() =~= tbase + tx_input_refs(tx@).take(k + 1));
                    }
                    k = k + 1;
                }
                proof {
                    assert(tx_input_refs(tx@).take(tx_input_refs(tx@).len() as int)
                        =~= tx_input_refs(tx@));
                    assert(block.transactions.deep_view().take(t + 1).drop_last()
                        =~= block.transactions.deep_view().take(t as int));
                    assert(spent.deep_view() =~= base + txs_input_refs(
                        block.transactions.deep_view().take(t + 1),
                    ));
                }
                t = t + 1;
            }
            proof {
                assert(block.transactions.deep_view().take(block.transactions.deep_view().len()
                    as int) =~= block.transactions.deep_view());
                assert(chain.take(b + 1).drop_last() =~= chain.take(b as int));
                assert(spent.deep_view() =~= chain_input_refs(chain.take(b + 1)));
            }
            b = b + 1;
        }
        proof {
            assert(chain.take(chain.len() as int) =~= chain);
        }
        let mut utxos: Vec<Utxo> = Vec::new();
        let mut b2: usize = 0;
        while b2 < self.chain.len()
            invariant
                b2 <= self.chain.len(),
                spent.deep_view() == chain_input_refs(chain),
                utxos.deep_view() == utxo_filter(
                    chain_entries(chain.take(b2 as int)),
                    chain,
                    address@,
                ),
            decreases self.chain.len() - b2,
        {
            let block = &self.chain[b2];
            proof {
                assert(block.deep_view() == chain[b2 as int]);
            }
            let ghost base = utxos.deep_view();
            let mut t: usize = 0;
            while t < block.transactions.len()
                invariant
                    t <= block.transactions.len(),
                    spent.deep_view() == chain_input_refs(chain),
                    utxos.deep_view() == base + utxo_filter(
                        txs_entries(block.transactions.deep_view().take(t as int)),
                        chain,
                        address@,
                    ),
                decreases block.transactions.len() - t,
            {
                let tx = &block.transactions[t];
                proof {
                    assert(tx.deep_view() == block.transactions.deep_view()[t as int]);
                }
                let ghost tbase = utxos.deep_view();
                let mut k: usize = 0;
                while k < tx.outputs.len()
                    invariant
                        k <= tx.outputs.len(),
                        spent.deep_view() == chain_input_refs(chain),
                        utxos.deep_view() == tbase + utxo_filter(
                            tx_entries(tx@).take(k as int),
                            chain,
                            address@,
                        ),
                    decreases tx.outputs.len() - k,
                {
                    let ghost ev = tx_entries(tx@)[k as int];
                    let output = &tx.outputs[k];
                    let keep = if bytes_eq(&output.script_pub_key, address) {
                        !spent_contains(&spent, &tx.id, k)
                    } else {
                        false
                    };
                    proof {
                        assert(keep == utxo_keep(ev, chain, address@));
                    }
                    if keep {
                        let entry = Utxo {
                            txid: copy_bytes(&tx.id),
                            vout: k,
                            output: clone_output(output),
                        };
                        let ghost pre = utxos.deep_view();
                        proof {
                            assert(entry.deep_view() == ev);
                        }
                        utxos.push(entry);
                        proof {
                            assert(utxos.deep_view() =~= pre.push(ev));
                        }
                    }
                    proof {
                        assert(tx_entries(tx@).take(k + 1).drop_last() =~= tx_entries(tx@).take(
                            k as int,
                        ));
                        assert(tx_entries(tx@).take(k + 1).last() == ev);
                        assert(utxos.deep_view() =~= tbase + utxo_filter(
                            tx_entries(tx@).take(k + 1),
                            chain,
                            address@,
                        ));
                    }
                    k = k + 1;
                }
                proof {
                    assert(tx_entries(tx@).take(tx_entries(tx@).len() as int) =~= tx_entries(tx@));
                    assert(block.transactions.deep_view().take(t + 1).drop_last()
                        =~= block.transactions.deep_view().take(t as int));
                    lemma_filter_concat(
                        txs_entries(block.transactions.deep_view().take(t as int)),
                        tx_entries(tx@),
                        chain,
                        address@,
                    );
                    assert(utxos.deep_view() =~= base + utxo_filter(
                        txs_entries(block.transactions.deep_view().take(t + 1)),
                        chain,
                        address@,
                    ));
                }
                t = t + 1;
            }
            proof {
                assert(block.transactions.deep_view().take(block.transactions.deep_view().len()
                    as int) =~= block.transactions.deep_view());
                assert(chain.take(b2 + 1).drop_last() =~= chain.take(b2 as int));
                lemma_filter_concat(
                    chain_entries(chain.take(b2 as int)),
                    txs_entries(chain[b2 as int].transactions),
                    chain,
                    address@,
                );
                assert(utxos.deep_view() =~= utxo_filter(
                    chain_entries(chain.take(b2 + 1)),
                    chain,
                    address@,
                ));
            }
            b2 = b2 + 1;
        }
        proof {
            assert(chain.take(chain.len() as int) =~= chain);
        }
        utxos
    }

    /// The balance of an address: the sum of its unspent outputs,
    /// saturating at the largest representable value.
    #[verifier::loop_isolation(false)]
    pub fn get_balance(&self, address: &Vec<u8>) -> (r: u64)
        ensures
            r as int == if balance_of(self@.chain, address@) > u64::MAX as int {
                u64::MAX as int
            } else {
                balance_of(self@.chain, address@)
            },
    {
        let utxos = self.get_utxos(address);
        let ghost entries = utxos.deep_view();
        let mut acc: u64 = 0;
        let mut i: usize = 0;
        while i < utxos.len()
            invariant
                i <= utxos.len(),
                acc as int == if utxo_sum(entries.take(i as int)) > u64::MAX as int {
                    u64::MAX as int
                } else {
                    utxo_sum(entries.take(i as int))
                },
            decreases utxos.len() - i,
        {
            let v = utxos[i].output.value;
            proof {
                assert(entries.take(i + 1).drop_last() =~= entries.take(i as int));
                assert(entries.take(i + 1).last() == entries[i as int]);
                lemma_sum_nonneg(entries.take(i as int));
            }
            if u64::MAX - acc < v {
                acc = u64::MAX;
            } else {
                acc = acc + v;
            }
            i = i + 1;
        }
        proof {
            assert(entries.take(entries.len() as int) =~= entries);
        }
        acc
    }
}

/// A sum of output values is never negative.
pub proof fn lemma_sum_nonneg(s: Seq<UtxoV>)
    ensures
        utxo_sum(s) >= 0,
    decreases s.len(),
{
    if s.len() > 0 {
        lemma_sum_nonneg(s.drop_last());
    }
}

} // verus!
