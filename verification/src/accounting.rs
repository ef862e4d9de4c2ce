//! The ledger's accounting law: accepting a block that carries one
//! coinbase and one spend moves exactly the spent amount from the
//! sender to the receiver, and nothing else. The law is stated under
//! the id-freshness assumptions that only a SHA-256 collision could
//! violate: transaction ids and output references are pairwise
//! distinct, and no id equals the coinbase marker.

use vstd::prelude::*;
use crate::block::BlockV;
use crate::node::{inputs_match_selection, spend_selection, spend_selection_at};
use crate::transaction::{coinbase_txid, TransactionV};
use crate::utxo::{
    balance_of, chain_entries, chain_input_refs, lemma_filter_concat, lemma_sum_concat, spent_in,
    lemma_sum_nonneg, tx_entries, tx_input_refs, txs_entries, txs_input_refs, utxo_filter,
    utxo_keep, utxo_sum, utxos_for, UtxoV,
};

verus! {

/// The `(txid, vout)` pair that identifies an output.
pub open spec fn entry_ref(e: UtxoV) -> (Seq<u8>, usize) {
    (e.txid, e.vout)
}

/// Whether the references of a list of entries are pairwise distinct.
pub open spec fn entries_distinct(s: Seq<UtxoV>) -> bool {
    forall|i: int, j: int| 0 <= i < j < s.len() ==> entry_ref(s[i]) != entry_ref(s[j])
}

/// The entries of `s` whose reference does not occur in `rs`, in order.
pub open spec fn ref_remove(s: Seq<UtxoV>, rs: Seq<(Seq<u8>, usize)>) -> Seq<UtxoV>
    decreases s.len(),
{
    if s.len() == 0 {
        Seq::empty()
    } else {
        let rest = ref_remove(s.drop_last(), rs);
        if !rs.contains(entry_ref(s.last())) {
            rest.push(s.last())
        } else {
            rest
        }
    }
}

/// Membership in a concatenation is membership in either part.
proof fn lemma_contains_concat<T>(a: Seq<T>, b: Seq<T>, x: T)
    ensures
        (a + b).contains(x) <==> a.contains(x) || b.contains(x),
{
    if (a + b).contains(x) {
        let i = choose|i: int| 0 <= i < (a + b).len() && (a + b)[i] == x;
        if i < a.len() {
            assert(a[i] == x);
        } else {
            assert(b[i - a.len()] == x);
        }
    }
    if a.contains(x) {
        let i = choose|i: int| 0 <= i < a.len() && a[i] == x;
        assert((a + b)[i] == x);
    }
    if b.contains(x) {
        let i = choose|i: int| 0 <= i < b.len() && b[i] == x;
        assert((a + b)[a.len() + i] == x);
    }
}

/// Appending a block enlarges the spent set by exactly that block's
/// input references.
pub proof fn lemma_spent_extend(chain: Seq<BlockV>, b: BlockV, txid: Seq<u8>, vout: usize)
    ensures
        spent_in(chain.push(b), txid, vout) <==> (spent_in(chain, txid, vout) || txs_input_refs(
            b.transactions,
        ).contains((txid, vout))),
{
    assert(chain.push(b).drop_last() =~= chain);
    assert(chain.push(b).last() == b);
    assert(chain_input_refs(chain.push(b)) == chain_input_refs(chain) + txs_input_refs(
        b.transactions,
    ));
    lemma_contains_concat(chain_input_refs(chain), txs_input_refs(b.transactions), (txid, vout));
}

/// Filtering against the extended chain equals filtering against the
/// old chain and then striking the entries the new block consumes.
pub proof fn lemma_filter_extend(s: Seq<UtxoV>, chain: Seq<BlockV>, b: BlockV, addr: Seq<u8>)
    ensures
        utxo_filter(s, chain.push(b), addr) == ref_remove(
            utxo_filter(s, chain, addr),
            txs_input_refs(b.transactions),
        ),
    decreases s.len(),
{
    let rs = txs_input_refs(b.transactions);
    if s.len() > 0 {
        lemma_filter_extend(s.drop_last(), chain, b, addr);
        let e = s.last();
        lemma_spent_extend(chain, b, e.txid, e.vout);
        let old_rest = utxo_filter(s.drop_last(), chain, addr);
        if utxo_keep(e, chain, addr) {
            assert(utxo_filter(s, chain, addr) == old_rest.push(e));
            assert(old_rest.push(e).drop_last() =~= old_rest);
            assert(old_rest.push(e).last() == e);
            if rs.contains(entry_ref(e)) {
                assert(!utxo_keep(e, chain.push(b), addr));
            } else {
                assert(utxo_keep(e, chain.push(b), addr));
            }
        } else {
            assert(!utxo_keep(e, chain.push(b), addr));
        }
    }
}

/// Striking references distributes over concatenation.
proof fn lemma_ref_remove_concat(s1: Seq<UtxoV>, s2: Seq<UtxoV>, rs: Seq<(Seq<u8>, usize)>)
    ensures
        ref_remove(s1 + s2, rs) == ref_remove(s1, rs) + ref_remove(s2, rs),
    decreases s2.len(),
{
    if s2.len() == 0 {
        assert(s1 + s2 =~= s1);
        assert(ref_remove(s1, rs) + ref_remove(s2, rs) =~= ref_remove(s1, rs));
    } else {
        lemma_ref_remove_concat(s1, s2.drop_last(), rs);
        assert((s1 + s2).drop_last() =~= s1 + s2.drop_last());
        assert((s1 + s2).last() == s2.last());
        if !rs.contains(entry_ref(s2.last())) {
            assert(ref_remove(s1, rs) + ref_remove(s2, rs) =~= (ref_remove(s1, rs) + ref_remove(
                s2.drop_last(),
                rs,
            )).push(s2.last()));
        }
    }
}

/// Striking a list whose references all occur leaves nothing.
proof fn lemma_ref_remove_all(s: Seq<UtxoV>, rs: Seq<(Seq<u8>, usize)>)
    requires
        forall|k: int| 0 <= k < s.len() ==> rs.contains(entry_ref(#[trigger] s[k])),
    ensures
        ref_remove(s, rs) == Seq::<UtxoV>::empty(),
    decreases s.len(),
{
    if s.len() > 0 {
        lemma_ref_remove_all(s.drop_last(), rs);
    }
}

/// Striking a list none of whose references occur changes nothing.
proof fn lemma_ref_remove_none(s: Seq<UtxoV>, rs: Seq<(Seq<u8>, usize)>)
    requires
        forall|k: int| 0 <= k < s.len() ==> !rs.contains(entry_ref(#[trigger] s[k])),
    ensures
        ref_remove(s, rs) == s,
    decreases s.len(),
{
    if s.len() > 0 {
        lemma_ref_remove_none(s.drop_last(), rs);
        assert(ref_remove(s.drop_last(), rs).push(s.last()) =~= s);
    }
}

/// Every element the unspent filter keeps stands somewhere in its
/// input and satisfies the filter's test.
proof fn lemma_filter_member(s: Seq<UtxoV>, chain: Seq<BlockV>, addr: Seq<u8>, k: int)
    requires
        0 <= k < utxo_filter(s, chain, addr).len(),
    ensures
        exists|i: int| 0 <= i < s.len() && s[i] == utxo_filter(s, chain, addr)[k],
        utxo_keep(utxo_filter(s, chain, addr)[k], chain, addr),
    decreases s.len(),
{
    if s.len() > 0 {
        let f = utxo_filter(s, chain, addr);
        let fp = utxo_filter(s.drop_last(), chain, addr);
        if k < fp.len() {
            lemma_filter_member(s.drop_last(), chain, addr, k);
            let i = choose|i: int| 0 <= i < s.drop_last().len() && s.drop_last()[i] == fp[k];
            assert(s[i] == f[k]);
        } else {
            assert(utxo_keep(s.last(), chain, addr));
            assert(f[k] == s.last());
            assert(s[s.len() - 1] == f[k]);
        }
    }
}

/// The unspent filter keeps references pairwise distinct.
proof fn lemma_filter_distinct(s: Seq<UtxoV>, chain: Seq<BlockV>, addr: Seq<u8>)
    requires
        entries_distinct(s),
    ensures
        entries_distinct(utxo_filter(s, chain, addr)),
    decreases s.len(),
{
    if s.len() > 0 {
        assert(entries_distinct(s.drop_last()));
        lemma_filter_distinct(s.drop_last(), chain, addr);
        let f = utxo_filter(s, chain, addr);
        let fp = utxo_filter(s.drop_last(), chain, addr);
        if utxo_keep(s.last(), chain, addr) {
            assert forall|i: int, j: int| 0 <= i < j < f.len() implies entry_ref(f[i]) != entry_ref(
                f[j],
            ) by {
                if j < fp.len() {
                    assert(f[i] == fp[i] && f[j] == fp[j]);
                } else {
                    assert(f[j] == s.last());
                    assert(f[i] == fp[i]);
                    lemma_filter_member(s.drop_last(), chain, addr, i);
                    let w = choose|w: int|
                        0 <= w < s.drop_last().len() && s.drop_last()[w] == fp[i];
                    assert(s[w] == fp[i]);
                    assert(entry_ref(s[w]) != entry_ref(s[s.len() - 1]));
                }
            }
        }
    }
}


/// No output anywhere in the chain carries this transaction id.
pub open spec fn id_not_among_entries(chain: Seq<BlockV>, id: Seq<u8>) -> bool {
    forall|k: int|
        0 <= k < chain_entries(chain).len() ==> (#[trigger] chain_entries(chain)[k]).txid != id
}

/// No input anywhere in the chain points at an output of this id.
pub open spec fn id_not_among_refs(chain: Seq<BlockV>, id: Seq<u8>) -> bool {
    forall|k: int|
        0 <= k < chain_input_refs(chain).len() ==> (#[trigger] chain_input_refs(chain)[k]).0 != id
}

/// The entries and consumed references of a two-transaction list,
/// spelled out.
proof fn lemma_two_txs(cb: TransactionV, t: TransactionV)
    ensures
        txs_entries(seq![cb, t]) == tx_entries(cb) + tx_entries(t),
        txs_input_refs(seq![cb, t]) == tx_input_refs(cb) + tx_input_refs(t),
{
    let s = seq![cb, t];
    assert(s.drop_last() =~= seq![cb]);
    assert(s.last() == t);
    assert(seq![cb].drop_last() =~= Seq::<TransactionV>::empty());
    assert(seq![cb].last() == cb);
    assert(txs_entries(seq![cb]) == txs_entries(Seq::<TransactionV>::empty()) + tx_entries(cb));
    assert(txs_entries(Seq::<TransactionV>::empty()) + tx_entries(cb) =~= tx_entries(cb));
    assert(txs_entries(s) == tx_entries(cb) + tx_entries(t));
    assert(txs_input_refs(seq![cb]) == txs_input_refs(Seq::<TransactionV>::empty())
        + tx_input_refs(cb));
    assert(txs_input_refs(Seq::<TransactionV>::empty()) + tx_input_refs(cb) =~= tx_input_refs(
        cb,
    ));
    assert(txs_input_refs(s) == tx_input_refs(cb) + tx_input_refs(t));
}

/// No double spend: a block holding one coinbase (paying a third
/// address) and one well-shaped spend of `amount` from `sender` to
/// `receiver` moves exactly `amount` between their balances. Stated
/// under the id-freshness side conditions that only a digest collision
/// could break: output references in the chain are pairwise distinct,
/// the spend's id is new to the chain, and no id equals the coinbase
/// marker.
#[verifier::rlimit(100)]
pub proof fn lemma_no_double_spend(
    chain: Seq<BlockV>,
    b: BlockV,
    cb: TransactionV,
    t: TransactionV,
    sender: Seq<u8>,
    receiver: Seq<u8>,
    miner: Seq<u8>,
    amount: u64,
)
    requires
        sender != receiver,
        miner != sender,
        miner != receiver,
        b.transactions == seq![cb, t],
        spend_selection(t, chain, sender, receiver, amount),
        cb.inputs.len() == 1,
        cb.inputs[0].txid == coinbase_txid(),
        cb.outputs.len() == 1,
        cb.outputs[0].script_pub_key == miner,
        entries_distinct(chain_entries(chain)),
        id_not_among_refs(chain, t.id),
        id_not_among_entries(chain, t.id),
        id_not_among_entries(chain, coinbase_txid()),
        t.id != coinbase_txid(),
    ensures
        balance_of(chain.push(b), receiver) == balance_of(chain, receiver) + amount,
        balance_of(chain.push(b), sender) == balance_of(chain, sender) - amount,
{
    let c2 = chain.push(b);
    let old_entries = chain_entries(chain);
    let avail = utxos_for(chain, sender);
    let n = choose|n: int| #[trigger] spend_selection_at(t, chain, sender, receiver, amount, n);
    let sel = avail.take(n);
    let rest = avail.skip(n);
    let s_total = utxo_sum(sel);
    let rs = txs_input_refs(b.transactions);

    // Decompose the new block's entries and consumed references.
    assert(c2.drop_last() =~= chain);
    assert(c2.last() == b);
    lemma_two_txs(cb, t);
    assert(txs_entries(b.transactions) == tx_entries(cb) + tx_entries(t));
    assert(rs == tx_input_refs(cb) + tx_input_refs(t));
    assert(chain_entries(c2) == old_entries + (tx_entries(cb) + tx_entries(t)));

    // Selected entries: members of the sender's unspent list, hence of
    // the chain's entries.
    assert(inputs_match_selection(t.inputs, sel));

    // What the new block consumes, spelled out.
    assert(tx_input_refs(cb).len() == 1);
    assert(tx_input_refs(cb)[0].0 == coinbase_txid());
    assert(tx_input_refs(t).len() == n);
    assert forall|i: int| 0 <= i < n implies #[trigger] tx_input_refs(t)[i] == entry_ref(
        sel[i],
    ) by {
        assert(t.inputs[i].txid == sel[i].txid && t.inputs[i].vout == sel[i].vout);
    }

    // A reference held by the block either is the coinbase marker's or
    // matches one selected entry.
    assert forall|x: (Seq<u8>, usize)| rs.contains(x) implies x.0 == coinbase_txid() || exists|
        i: int,
    | 0 <= i < n && x == entry_ref(sel[i]) by {
        lemma_contains_concat(tx_input_refs(cb), tx_input_refs(t), x);
        if tx_input_refs(cb).contains(x) {
            let k = choose|k: int| 0 <= k < 1 && tx_input_refs(cb)[k] == x;
            assert(x.0 == coinbase_txid());
        } else {
            let k = choose|k: int| 0 <= k < n && tx_input_refs(t)[k] == x;
            assert(x == entry_ref(sel[k]));
        }
    }

    // The spend's own outputs stay unspent in the extended chain.
    assert forall|v: usize| !spent_in(c2, t.id, v) by {
        lemma_spent_extend(chain, b, t.id, v);
        if spent_in(chain, t.id, v) {
            let k = choose|k: int|
                0 <= k < chain_input_refs(chain).len() && chain_input_refs(chain)[k] == (t.id, v);
            assert(chain_input_refs(chain)[k].0 == t.id);
        }
        if rs.contains((t.id, v)) {
            assert(((t.id, v)).0 == t.id);
            if exists|i: int| 0 <= i < n && (t.id, v) == entry_ref(sel[i]) {
                let i = choose|i: int| 0 <= i < n && (t.id, v) == entry_ref(sel[i]);
                lemma_filter_member(old_entries, chain, sender, i);
                let w = choose|w: int| 0 <= w < old_entries.len() && old_entries[w] == avail[i];
                assert(old_entries[w].txid == t.id);
            }
        }
    }

    // The spend's new entries, one per output.
    let e0 = UtxoV { txid: t.id, vout: 0, output: t.outputs[0] };
    assert(t.outputs[0].script_pub_key == receiver);
    assert(t.outputs[0].value == amount);

    // The coinbase's single entry goes to the miner, so it leaves both
    // balances alone.
    let ecb = UtxoV { txid: cb.id, vout: 0, output: cb.outputs[0] };
    assert(tx_entries(cb) =~= seq![ecb]);
    assert(seq![ecb].drop_last() =~= Seq::<UtxoV>::empty());
    assert(utxo_filter(Seq::<UtxoV>::empty(), c2, receiver) == Seq::<UtxoV>::empty());
    assert(utxo_filter(Seq::<UtxoV>::empty(), c2, sender) == Seq::<UtxoV>::empty());
    assert(!utxo_keep(ecb, c2, receiver));
    assert(!utxo_keep(ecb, c2, sender));
    assert(utxo_filter(seq![ecb], c2, receiver) == Seq::<UtxoV>::empty());
    assert(utxo_filter(seq![ecb], c2, sender) == Seq::<UtxoV>::empty());
    assert(utxo_filter(tx_entries(cb), c2, receiver) == Seq::<UtxoV>::empty());
    assert(utxo_filter(tx_entries(cb), c2, sender) == Seq::<UtxoV>::empty());

    // The filters of the spend's entries for each side.
    assert(seq![e0].drop_last() =~= Seq::<UtxoV>::empty());
    assert(seq![e0].last() == e0);
    if s_total > amount {
        let e1 = UtxoV { txid: t.id, vout: 1, output: t.outputs[1] };
        assert(tx_entries(t) =~= seq![e0, e1]);
        assert(seq![e0, e1].drop_last() =~= seq![e0]);
        assert(seq![e0, e1].last() == e1);
        assert(utxo_keep(e0, c2, receiver));
        assert(!utxo_keep(e1, c2, receiver));
        assert(utxo_filter(seq![e0], c2, receiver) =~= seq![e0]);
        assert(utxo_filter(seq![e0, e1], c2, receiver) =~= seq![e0]);
        assert(utxo_filter(tx_entries(t), c2, receiver) == utxo_filter(seq![e0, e1], c2, receiver));
        assert(!utxo_keep(e0, c2, sender));
        assert(utxo_keep(e1, c2, sender));
        assert(utxo_filter(seq![e0], c2, sender) =~= Seq::<UtxoV>::empty());
        assert(utxo_filter(seq![e0, e1], c2, sender) =~= seq![e1]);
        assert(utxo_filter(tx_entries(t), c2, sender) == utxo_filter(seq![e0, e1], c2, sender));
    } else {
        assert(tx_entries(t) =~= seq![e0]);
        assert(utxo_keep(e0, c2, receiver));
        assert(utxo_filter(seq![e0], c2, receiver) =~= seq![e0]);
        assert(utxo_filter(tx_entries(t), c2, receiver) == utxo_filter(seq![e0], c2, receiver));
        assert(!utxo_keep(e0, c2, sender));
        assert(utxo_filter(seq![e0], c2, sender) =~= Seq::<UtxoV>::empty());
        assert(utxo_filter(tx_entries(t), c2, sender) == utxo_filter(seq![e0], c2, sender));
    }

    // Old entries under the new chain: the old filter with the consumed
    // references struck out.
    lemma_filter_extend(old_entries, chain, b, receiver);
    lemma_filter_extend(old_entries, chain, b, sender);

    // The receiver's old entries lose nothing.
    let old_recv = utxo_filter(old_entries, chain, receiver);
    lemma_filter_distinct(old_entries, chain, sender);
    assert forall|k: int| 0 <= k < old_recv.len() implies !rs.contains(
        entry_ref(#[trigger] old_recv[k]),
    ) by {
        lemma_filter_member(old_entries, chain, receiver, k);
        let w = choose|w: int| 0 <= w < old_entries.len() && old_entries[w] == old_recv[k];
        if rs.contains(entry_ref(old_recv[k])) {
            assert(entry_ref(old_recv[k]).0 == old_entries[w].txid);
            if exists|i: int| 0 <= i < n && entry_ref(old_recv[k]) == entry_ref(sel[i]) {
                let i = choose|i: int| 0 <= i < n && entry_ref(old_recv[k]) == entry_ref(sel[i]);
                lemma_filter_member(old_entries, chain, sender, i);
                let w2 = choose|w2: int| 0 <= w2 < old_entries.len() && old_entries[w2] == avail[i];
                if w != w2 {
                    assert(entry_ref(old_entries[w]) != entry_ref(old_entries[w2]));
                } else {
                    assert(old_recv[k].output.script_pub_key == receiver);
                    assert(sel[i].output.script_pub_key == sender);
                }
            }
        }
    }
    lemma_ref_remove_none(old_recv, rs);

    // The sender's old entries lose exactly the selection.
    assert(avail =~= sel + rest);
    lemma_ref_remove_concat(sel, rest, rs);
    assert forall|k: int| 0 <= k < sel.len() implies rs.contains(
        entry_ref(#[trigger] sel[k]),
    ) by {
        assert(tx_input_refs(t)[k] == entry_ref(sel[k]));
        assert(tx_input_refs(t).contains(entry_ref(sel[k])));
        lemma_contains_concat(tx_input_refs(cb), tx_input_refs(t), entry_ref(sel[k]));
    }
    lemma_ref_remove_all(sel, rs);
    assert(entries_distinct(avail));
    assert forall|k: int| 0 <= k < rest.len() implies !rs.contains(
        entry_ref(#[trigger] rest[k]),
    ) by {
        assert(rest[k] == avail[n + k]);
        lemma_filter_member(old_entries, chain, sender, n + k);
        let w = choose|w: int| 0 <= w < old_entries.len() && old_entries[w] == avail[n + k];
        if rs.contains(entry_ref(rest[k])) {
            assert(entry_ref(rest[k]).0 == old_entries[w].txid);
            if exists|i: int| 0 <= i < n && entry_ref(rest[k]) == entry_ref(sel[i]) {
                let i = choose|i: int| 0 <= i < n && entry_ref(rest[k]) == entry_ref(sel[i]);
                assert(entry_ref(avail[i]) != entry_ref(avail[n + k]));
            }
        }
    }
    lemma_ref_remove_none(rest, rs);
    assert(ref_remove(avail, rs) =~= rest);

    // Put the sums together.
    lemma_filter_concat(old_entries + tx_entries(cb), tx_entries(t), c2, receiver);
    lemma_filter_concat(old_entries, tx_entries(cb), c2, receiver);
    lemma_filter_concat(old_entries + tx_entries(cb), tx_entries(t), c2, sender);
    lemma_filter_concat(old_entries, tx_entries(cb), c2, sender);
    assert(chain_entries(c2) =~= (old_entries + tx_entries(cb)) + tx_entries(t));

    let f_recv = utxo_filter(chain_entries(c2), c2, receiver);
    assert(f_recv == (old_recv + Seq::<UtxoV>::empty()) + utxo_filter(tx_entries(t), c2, receiver));
    lemma_sum_concat(old_recv + Seq::<UtxoV>::empty(), utxo_filter(tx_entries(t), c2, receiver));
    lemma_sum_concat(old_recv, Seq::<UtxoV>::empty());
    assert(seq![e0].drop_last() =~= Seq::<UtxoV>::empty());
    assert(utxo_sum(seq![e0]) == amount);
    assert(balance_of(c2, receiver) == utxo_sum(old_recv) + amount);

    let f_send = utxo_filter(chain_entries(c2), c2, sender);
    assert(f_send == (rest + Seq::<UtxoV>::empty()) + utxo_filter(tx_entries(t), c2, sender));
    lemma_sum_concat(rest + Seq::<UtxoV>::empty(), utxo_filter(tx_entries(t), c2, sender));
    lemma_sum_concat(rest, Seq::<UtxoV>::empty());
    lemma_sum_concat(sel, rest);
    assert(utxo_sum(avail) == s_total + utxo_sum(rest));
    if s_total > amount {
        let e1 = UtxoV { txid: t.id, vout: 1, output: t.outputs[1] };
        assert(seq![e1].drop_last() =~= Seq::<UtxoV>::empty());
        assert(n > 0);
        assert(sel.drop_last() =~= avail.take(n - 1));
        assert(sel.last() == avail[n - 1]);
        assert(s_total == utxo_sum(avail.take(n - 1)) + avail[n - 1].output.value);
        assert(utxo_sum(avail.take(n - 1)) < amount);
        lemma_sum_nonneg(avail.take(n - 1));
        assert(0 <= s_total - amount <= u64::MAX);
        assert(e1.output.value == (s_total - amount) as u64);
        assert(utxo_sum(seq![e1]) == s_total - amount);
        assert(balance_of(c2, sender) == utxo_sum(rest) + (s_total - amount));
    } else {
        assert(s_total == amount) by {
            assert(utxo_sum(sel) >= amount);
        }
        assert(balance_of(c2, sender) == utxo_sum(rest));
    }
    assert(balance_of(c2, sender) == balance_of(chain, sender) - amount);
}

} // verus!
