//! Transactions: value moving from previously unspent outputs to new
//! outputs. A transaction's id is the digest of its content with the id
//! and every input's signature and public key blanked, so that signing
//! does not move the id; one wallet signs all inputs, and verification
//! checks every non-coinbase input against that pre-signature id.

use vstd::prelude::*;
use crate::clock::now_seconds;
use crate::crypto::{ed_verifies, ed25519_verify, sha256, sha256_of, sig_of, vk_of};
use crate::encoding::{
    bytes_eq, copy_bytes, enc_bytes, enc_i64, enc_u32, enc_u64, hex_decode, hex_decode_spec,
    hex_encode, hex_of, lemma_hex_round_trip, push_bytes, push_i64, push_u32, push_u64,
};
use crate::wallet::Wallet;

verus! {

/// An input: a reference to the output it spends, and the proof of
/// ownership.
pub struct TxInput {
    /// The id of the transaction whose output is spent; 64 ASCII zeros
    /// mark a coinbase input.
    pub txid: Vec<u8>,
    /// The index of the spent output in that transaction.
    pub vout: usize,
    /// The hexadecimal signature over the pre-signature id.
    pub script_sig: Vec<u8>,
    /// The hexadecimal public key of the signer.
    pub pub_key: Vec<u8>,
    /// Reserved; carried but never read.
    pub sequence: u32,
}

/// An output: a value locked to an address.
pub struct TxOutput {
    pub value: u64,
    /// The destination address; spendable by exact match only.
    pub script_pub_key: Vec<u8>,
}

/// A transaction.
pub struct Transaction {
    /// The pre-signature digest of the transaction.
    pub id: Vec<u8>,
    /// Seconds since the epoch at creation.
    pub timestamp: i64,
    pub inputs: Vec<TxInput>,
    pub outputs: Vec<TxOutput>,
}

/// The mathematical image of a `TxInput`.
pub ghost struct TxInputV {
    pub txid: Seq<u8>,
    pub vout: usize,
    pub script_sig: Seq<u8>,
    pub pub_key: Seq<u8>,
    pub sequence: u32,
}

/// The mathematical image of a `TxOutput`.
pub ghost struct TxOutputV {
    pub value: u64,
    pub script_pub_key: Seq<u8>,
}

/// The mathematical image of a `Transaction`.
pub ghost struct TransactionV {
    pub id: Seq<u8>,
    pub timestamp: i64,
    pub inputs: Seq<TxInputV>,
    pub outputs: Seq<TxOutputV>,
}

impl DeepView for TxInput {
    type V = TxInputV;

    open spec fn deep_view(&self) -> TxInputV {
        TxInputV {
            txid: self.txid@,
            vout: self.vout,
            script_sig: self.script_sig@,
            pub_key: self.pub_key@,
            sequence: self.sequence,
        }
    }
}

impl DeepView for TxOutput {
    type V = TxOutputV;

    open spec fn deep_view(&self) -> TxOutputV {
        TxOutputV { value: self.value, script_pub_key: self.script_pub_key@ }
    }
}

impl View for Transaction {
    type V = TransactionV;

    open spec fn view(&self) -> TransactionV {
        TransactionV {
            id: self.id@,
            timestamp: self.timestamp,
            inputs: self.inputs.deep_view(),
            outputs: self.outputs.deep_view(),
        }
    }
}

impl DeepView for Transaction {
    type V = TransactionV;

    open spec fn deep_view(&self) -> TransactionV {
        self.view()
    }
}

/// The txid that marks a coinbase input: 64 ASCII zero characters.
pub open spec fn coinbase_txid() -> Seq<u8> {
    Seq::new(64, |i: int| 48u8)
}

/// Builds the coinbase txid marker.
pub fn make_coinbase_txid() -> (r: Vec<u8>)
    ensures
        r@ == coinbase_txid(),
{
    let mut r: Vec<u8> = Vec::new();
    let mut i: usize = 0;
    while i < 64
        invariant
            i <= 64,
            r@ == coinbase_txid().take(i as int),
        decreases 64 - i,
    {
        r.push(48);
        proof {
            assert(r@ =~= coinbase_txid().take(i + 1));
        }
        i = i + 1;
    }
    proof {
        assert(coinbase_txid().take(64) =~= coinbase_txid());
    }
    r
}

/// The canonical encoding of an output.
pub open spec fn enc_output(o: TxOutputV) -> Seq<u8> {
    enc_u64(o.value) + enc_bytes(o.script_pub_key)
}

/// The canonical encoding of an output list, output by output.
pub open spec fn enc_outputs(s: Seq<TxOutputV>) -> Seq<u8>
    decreases s.len(),
{
    if s.len() == 0 {
        Seq::empty()
    } else {
        enc_outputs(s.drop_last()) + enc_output(s.last())
    }
}

/// The canonical encoding of an input.
pub open spec fn enc_input(i: TxInputV) -> Seq<u8> {
    enc_bytes(i.txid) + enc_u64(i.vout as u64) + enc_bytes(i.script_sig) + enc_bytes(i.pub_key)
        + enc_u32(i.sequence)
}

/// The canonical encoding of an input list, input by input.
pub open spec fn enc_inputs(s: Seq<TxInputV>) -> Seq<u8>
    decreases s.len(),
{
    if s.len() == 0 {
        Seq::empty()
    } else {
        enc_inputs(s.drop_last()) + enc_input(s.last())
    }
}

/// An input with its signature and public key blanked, as it is hashed
/// for the pre-signature id.
pub open spec fn strip_input(i: TxInputV) -> TxInputV {
    TxInputV { script_sig: Seq::empty(), pub_key: Seq::empty(), ..i }
}

/// The encoding of an input list with all signatures blanked.
pub open spec fn enc_inputs_stripped(s: Seq<TxInputV>) -> Seq<u8>
    decreases s.len(),
{
    if s.len() == 0 {
        Seq::empty()
    } else {
        enc_inputs_stripped(s.drop_last()) + enc_input(strip_input(s.last()))
    }
}

/// The bytes hashed to form a transaction's id: the id blanked, the
/// timestamp, then inputs with signatures blanked, then outputs.
pub open spec fn enc_tx_sighash(t: TransactionV) -> Seq<u8> {
    enc_bytes(Seq::empty()) + enc_i64(t.timestamp) + enc_u64(t.inputs.len() as u64)
        + enc_inputs_stripped(t.inputs) + enc_u64(t.outputs.len() as u64) + enc_outputs(t.outputs)
}

/// The pre-signature id of a transaction: lowercase hexadecimal SHA-256
/// of its canonical signing bytes. It depends on neither the stored id
/// nor any input's signature or public key.
pub open spec fn tx_digest(t: TransactionV) -> Seq<u8> {
    hex_of(sha256_of(enc_tx_sighash(t)))
}

/// The canonical encoding of a whole transaction, signatures included,
/// as it is hashed inside a block.
pub open spec fn enc_tx(t: TransactionV) -> Seq<u8> {
    enc_bytes(t.id) + enc_i64(t.timestamp) + enc_u64(t.inputs.len() as u64) + enc_inputs(t.inputs)
        + enc_u64(t.outputs.len() as u64) + enc_outputs(t.outputs)
}

/// The canonical encoding of a transaction list.
pub open spec fn enc_txs(s: Seq<TransactionV>) -> Seq<u8>
    decreases s.len(),
{
    if s.len() == 0 {
        Seq::empty()
    } else {
        enc_txs(s.drop_last()) + enc_tx(s.last())
    }
}

/// Whether one input passes signature verification against a digest:
/// coinbase inputs pass outright; any other must carry a hexadecimal
/// 64-byte signature and 32-byte public key that Ed25519 accepts.
pub open spec fn input_verifies(i: TxInputV, digest: Seq<u8>) -> bool {
    i.txid == coinbase_txid() || match (
        hex_decode_spec(i.script_sig),
        hex_decode_spec(i.pub_key),
    ) {
        (Some(sig), Some(pk)) => sig.len() == 64 && pk.len() == 32 && ed_verifies(pk, digest, sig),
        _ => false,
    }
}

/// Whether every input of a transaction passes verification against its
/// pre-signature id.
pub open spec fn tx_verifies(t: TransactionV) -> bool {
    forall|j: int| 0 <= j < t.inputs.len() ==> input_verifies(t.inputs[j], tx_digest(t))
}

/// An input as `sign` rewrites it: the wallet's signature over the
/// digest and its public key, both in hexadecimal.
pub open spec fn signed_input(i: TxInputV, secret: Seq<u8>, digest: Seq<u8>) -> TxInputV {
    TxInputV { script_sig: hex_of(sig_of(secret, digest)), pub_key: hex_of(vk_of(secret)), ..i }
}

/// Appends the encoding of one output.
fn push_output(out: &mut Vec<u8>, o: &TxOutput)
    ensures
        final(out)@ == old(out)@ + enc_output(o.deep_view()),
{
    push_u64(out, o.value);
    push_bytes(out, &o.script_pub_key);
    proof {
        assert(out@ =~= old(out)@ + enc_output(o.deep_view()));
    }
}

/// Appends the encodings of all outputs.
fn push_outputs(out: &mut Vec<u8>, v: &Vec<TxOutput>)
    ensures
        final(out)@ == old(out)@ + enc_outputs(v.deep_view()),
{
    let mut i: usize = 0;
    while i < v.len()
        invariant
            i <= v.len(),
            out@ == old(out)@ + enc_outputs(v.deep_view().take(i as int)),
        decreases v.len() - i,
    {
        push_output(out, &v[i]);
        proof {
            assert(v.deep_view().take(i + 1).drop_last() =~= v.deep_view().take(i as int));
            assert(v.deep_view().take(i + 1).last() == v.deep_view()[i as int]);
            assert(out@ =~= old(out)@ + enc_outputs(v.deep_view().take(i + 1)));
        }
        i = i + 1;
    }
    proof {
        assert(v.deep_view().take(v.deep_view().len() as int) =~= v.deep_view());
    }
}

/// Appends the encoding of one input, signature included.
fn push_input(out: &mut Vec<u8>, i: &TxInput)
    ensures
        final(out)@ == old(out)@ + enc_input(i.deep_view()),
{
    push_bytes(out, &i.txid);
    push_u64(out, i.vout as u64);
    push_bytes(out, &i.script_sig);
    push_bytes(out, &i.pub_key);
    push_u32(out, i.sequence);
    proof {
        assert(out@ =~= old(out)@ + enc_input(i.deep_view()));
    }
}

/// Appends the encoding of one input with its signature blanked.
fn push_input_stripped(out: &mut Vec<u8>, i: &TxInput)
    ensures
        final(out)@ == old(out)@ + enc_input(strip_input(i.deep_view())),
{
    let empty: Vec<u8> = Vec::new();
    push_bytes(out, &i.txid);
    push_u64(out, i.vout as u64);
    push_bytes(out, &empty);
    push_bytes(out, &empty);
    push_u32(out, i.sequence);
    proof {
        assert(out@ =~= old(out)@ + enc_input(strip_input(i.deep_view())));
    }
}

/// Appends the encodings of all inputs, signatures included.
fn push_inputs(out: &mut Vec<u8>, v: &Vec<TxInput>)
    ensures
        final(out)@ == old(out)@ + enc_inputs(v.deep_view()),
{
    let mut i: usize = 0;
    while i < v.len()
        invariant
            i <= v.len(),
            out@ == old(out)@ + enc_inputs(v.deep_view().take(i as int)),
        decreases v.len() - i,
    {
        push_input(out, &v[i]);
        proof {
            assert(v.deep_view().take(i + 1).drop_last() =~= v.deep_view().take(i as int));
            assert(v.deep_view().take(i + 1).last() == v.deep_view()[i as int]);
            assert(out@ =~= old(out)@ + enc_inputs(v.deep_view().take(i + 1)));
        }
        i = i + 1;
    }
    proof {
        assert(v.deep_view().take(v.deep_view().len() as int) =~= v.deep_view());
    }
}

/// Appends the encodings of all inputs with signatures blanked.
fn push_inputs_stripped(out: &mut Vec<u8>, v: &Vec<TxInput>)
    ensures
        final(out)@ == old(out)@ + enc_inputs_stripped(v.deep_view()),
{
    let mut i: usize = 0;
    while i < v.len()
        invariant
            i <= v.len(),
            out@ == old(out)@ + enc_inputs_stripped(v.deep_view().take(i as int)),
        decreases v.len() - i,
    {
        push_input_stripped(out, &v[i]);
        proof {
            assert(v.deep_view().take(i + 1).drop_last() =~= v.deep_view().take(i as int));
            assert(v.deep_view().take(i + 1).last() == v.deep_view()[i as int]);
            assert(out@ =~= old(out)@ + enc_inputs_stripped(v.deep_view().take(i + 1)));
        }
        i = i + 1;
    }
    proof {
        assert(v.deep_view().take(v.deep_view().len() as int) =~= v.deep_view());
    }
}

/// Appends the canonical encoding of a whole transaction.
pub fn push_tx(out: &mut Vec<u8>, t: &Transaction)
    ensures
        final(out)@ == old(out)@ + enc_tx(t@),
{
    push_bytes(out, &t.id);
    push_i64(out, t.timestamp);
    push_u64(out, t.inputs.len() as u64);
    push_inputs(out, &t.inputs);
    push_u64(out, t.outputs.len() as u64);
    push_outputs(out, &t.outputs);
    proof {
        assert(out@ =~= old(out)@ + enc_tx(t@));
    }
}

/// Appends the canonical encodings of a transaction list.
pub fn push_txs(out: &mut Vec<u8>, v: &Vec<Transaction>)
    ensures
        final(out)@ == old(out)@ + enc_txs(v.deep_view()),
{
    let mut i: usize = 0;
    while i < v.len()
        invariant
            i <= v.len(),
            out@ == old(out)@ + enc_txs(v.deep_view().take(i as int)),
        decreases v.len() - i,
    {
        push_tx(out, &v[i]);
        proof {
            assert(v.deep_view().take(i + 1).drop_last() =~= v.deep_view().take(i as int));
            assert(v.deep_view().take(i + 1).last() == v.deep_view()[i as int]);
            assert(out@ =~= old(out)@ + enc_txs(v.deep_view().take(i + 1)));
        }
        i = i + 1;
    }
    proof {
        assert(v.deep_view().take(v.deep_view().len() as int) =~= v.deep_view());
    }
}

/// Two input lists that agree on everything but signatures and public
/// keys have the same blanked encoding.
proof fn lemma_stripped_congruent(s1: Seq<TxInputV>, s2: Seq<TxInputV>)
    requires
        s1.len() == s2.len(),
        forall|j: int| 0 <= j < s1.len() ==> strip_input(s1[j]) == strip_input(s2[j]),
    ensures
        enc_inputs_stripped(s1) == enc_inputs_stripped(s2),
    decreases s1.len(),
{
    if s1.len() > 0 {
        assert(forall|j: int|
            0 <= j < s1.drop_last().len() ==> strip_input(s1.drop_last()[j]) == strip_input(
                s2.drop_last()[j],
            ));
        lemma_stripped_congruent(s1.drop_last(), s2.drop_last());
        assert(strip_input(s1.last()) == strip_input(s2.last()));
    }
}

/// A fresh copy of an input.
pub fn clone_input(i: &TxInput) -> (r: TxInput)
    ensures
        r.deep_view() == i.deep_view(),
{
    TxInput {
        txid: copy_bytes(&i.txid),
        vout: i.vout,
        script_sig: copy_bytes(&i.script_sig),
        pub_key: copy_bytes(&i.pub_key),
        sequence: i.sequence,
    }
}

/// A fresh copy of an output.
pub fn clone_output(o: &TxOutput) -> (r: TxOutput)
    ensures
        r.deep_view() == o.deep_view(),
{
    TxOutput { value: o.value, script_pub_key: copy_bytes(&o.script_pub_key) }
}

/// A fresh copy of a transaction.
pub fn clone_tx(t: &Transaction) -> (r: Transaction)
    ensures
        r@ == t@,
{
    let mut inputs: Vec<TxInput> = Vec::new();
    let mut i: usize = 0;
    while i < t.inputs.len()
        invariant
            i <= t.inputs.len(),
            inputs.deep_view() == t.inputs.deep_view().take(i as int),
        decreases t.inputs.len() - i,
    {
        let entry = clone_input(&t.inputs[i]);
        let ghost pre = inputs.deep_view();
        let ghost entry_v = entry.deep_view();
        inputs.push(entry);
        proof {
            assert(inputs.deep_view() =~= pre.push(entry_v));
            assert(inputs.deep_view() =~= t.inputs.deep_view().take(i + 1));
        }
        i = i + 1;
    }
    let mut outputs: Vec<TxOutput> = Vec::new();
    let mut j: usize = 0;
    while j < t.outputs.len()
        invariant
            j <= t.outputs.len(),
            outputs.deep_view() == t.outputs.deep_view().take(j as int),
        decreases t.outputs.len() - j,
    {
        let entry = clone_output(&t.outputs[j]);
        let ghost pre = outputs.deep_view();
        let ghost entry_v = entry.deep_view();
        outputs.push(entry);
        proof {
            assert(outputs.deep_view() =~= pre.push(entry_v));
            assert(outputs.deep_view() =~= t.outputs.deep_view().take(j + 1));
        }
        j = j + 1;
    }
    proof {
        assert(t.inputs.deep_view().take(t.inputs.deep_view().len() as int) =~= t.inputs.deep_view());
        assert(t.outputs.deep_view().take(t.outputs.deep_view().len() as int)
            =~= t.outputs.deep_view());
    }
    Transaction { id: copy_bytes(&t.id), timestamp: t.timestamp, inputs, outputs }
}

/// A fresh copy of a transaction list.
pub fn clone_txs(v: &Vec<Transaction>) -> (r: Vec<Transaction>)
    ensures
        r.deep_view() == v.deep_view(),
{
    let mut r: Vec<Transaction> = Vec::new();
    let mut i: usize = 0;
    while i < v.len()
        invariant
            i <= v.len(),
            r.deep_view() == v.deep_view().take(i as int),
        decreases v.len() - i,
    {
        let entry = clone_tx(&v[i]);
        let ghost pre = r.deep_view();
        let ghost entry_v = entry@;
        r.push(entry);
        proof {
            assert(r.deep_view() =~= pre.push(entry_v));
            assert(r.deep_view() =~= v.deep_view().take(i + 1));
        }
        i = i + 1;
    }
    proof {
        assert(v.deep_view().take(v.deep_view().len() as int) =~= v.deep_view());
    }
    r
}

impl Transaction {
    /// The pre-signature id of this transaction, recomputed from its
    /// content.
    pub fn calculate_hash(&self) -> (r: Vec<u8>)
        ensures
            r@ == tx_digest(self@),
            r@.len() == 64,
    {
        let mut bytes: Vec<u8> = Vec::new();
        let empty: Vec<u8> = Vec::new();
        push_bytes(&mut bytes, &empty);
        push_i64(&mut bytes, self.timestamp);
        push_u64(&mut bytes, self.inputs.len() as u64);
        push_inputs_stripped(&mut bytes, &self.inputs);
        push_u64(&mut bytes, self.outputs.len() as u64);
        push_outputs(&mut bytes, &self.outputs);
        proof {
            assert(bytes@ =~= enc_tx_sighash(self@));
        }
        let digest = sha256(&bytes);
        hex_encode(&digest)
    }

    /// Builds a transaction over the given inputs and outputs, stamped
    /// with the current time, and sets its id to the pre-signature
    /// digest of its content.
    pub fn new(inputs: Vec<TxInput>, outputs: Vec<TxOutput>) -> (r: Transaction)
        ensures
            r@.inputs == inputs.deep_view(),
            r@.outputs == outputs.deep_view(),
            r@.id == tx_digest(r@),
    {
        let mut tx = Transaction { id: Vec::new(), timestamp: now_seconds(), inputs, outputs };
        let id = tx.calculate_hash();
        let ghost before = tx@;
        tx.id = id;
        proof {
            assert(enc_tx_sighash(tx@) == enc_tx_sighash(before));
        }
        tx
    }

    /// Signs every input with the wallet's key: the same signature over
    /// the pre-signature id, and the same public key, are stamped onto
    /// each input. The id does not move, and the signed transaction
    /// passes `verify`.
    pub fn sign(&mut self, wallet: &Wallet)
        requires
            wallet.wf(),
        ensures
            final(self)@.id == old(self)@.id,
            final(self)@.timestamp == old(self)@.timestamp,
            final(self)@.outputs == old(self)@.outputs,
            final(self)@.inputs.len() == old(self)@.inputs.len(),
            forall|j: int|
                0 <= j < old(self)@.inputs.len() ==> final(self)@.inputs[j] == signed_input(
                    old(self)@.inputs[j],
                    wallet@,
                    tx_digest(old(self)@),
                ),
            tx_digest(final(self)@) == tx_digest(old(self)@),
            tx_verifies(final(self)@),
    {
        let digest = self.calculate_hash();
        let sig = wallet.sign(&digest);
        let sig_hex = hex_encode(&sig);
        let pk = wallet.get_public_key();
        let pk_hex = hex_encode(&pk);
        let mut signed: Vec<TxInput> = Vec::new();
        let mut i: usize = 0;
        while i < self.inputs.len()
            invariant
                i <= self.inputs.len(),
                sig_hex@ == hex_of(sig_of(wallet@, tx_digest(old(self)@))),
                pk_hex@ == hex_of(vk_of(wallet@)),
                signed.deep_view().len() == i,
                forall|j: int|
                    0 <= j < i ==> signed.deep_view()[j] == signed_input(
                        self.inputs.deep_view()[j],
                        wallet@,
                        tx_digest(old(self)@),
                    ),
                self.inputs.deep_view() == old(self).inputs.deep_view(),
            decreases self.inputs.len() - i,
        {
            let src = &self.inputs[i];
            let entry = TxInput {
                txid: copy_bytes(&src.txid),
                vout: src.vout,
                script_sig: copy_bytes(&sig_hex),
                pub_key: copy_bytes(&pk_hex),
                sequence: src.sequence,
            };
            let ghost pre = signed.deep_view();
            let ghost entry_v = entry.deep_view();
            signed.push(entry);
            proof {
                assert(signed.deep_view() =~= pre.push(entry_v));
                assert(entry_v == signed_input(
                    self.inputs.deep_view()[i as int],
                    wallet@,
                    tx_digest(old(self)@),
                ));
            }
            i = i + 1;
        }
        self.inputs = signed;
        proof {
            lemma_stripped_congruent(self.inputs.deep_view(), old(self).inputs.deep_view());
            assert(enc_tx_sighash(self@) == enc_tx_sighash(old(self)@));
            lemma_hex_round_trip(sig_of(wallet@, tx_digest(old(self)@)));
            lemma_hex_round_trip(vk_of(wallet@));
            assert forall|j: int| 0 <= j < self@.inputs.len() implies input_verifies(
                self@.inputs[j],
                tx_digest(self@),
            ) by {
                assert(self@.inputs[j] == signed_input(
                    old(self)@.inputs[j],
                    wallet@,
                    tx_digest(old(self)@),
                ));
            }
        }
    }

    /// Checks every input's signature against the recomputed
    /// pre-signature id. Coinbase inputs are skipped; a malformed
    /// signature or key, or a failing signature, rejects the whole
    /// transaction.
    pub fn verify(&self) -> (r: bool)
        ensures
            r == tx_verifies(self@),
    {
        let digest = self.calculate_hash();
        let cb = make_coinbase_txid();
        let mut k: usize = 0;
        while k < self.inputs.len()
            invariant
                k <= self.inputs.len(),
                digest@ == tx_digest(self@),
                cb@ == coinbase_txid(),
                forall|j: int| 0 <= j < k ==> input_verifies(self@.inputs[j], tx_digest(self@)),
            decreases self.inputs.len() - k,
        {
            let input = &self.inputs[k];
            if !bytes_eq(&input.txid, &cb) {
                let sig = match hex_decode(&input.script_sig) {
                    Some(s) => s,
                    None => {
                        proof {
                            assert(!input_verifies(self@.inputs[k as int], tx_digest(self@)));
                        }
                        return false;
                    },
                };
                let pk = match hex_decode(&input.pub_key) {
                    Some(p) => p,
                    None => {
                        proof {
                            assert(!input_verifies(self@.inputs[k as int], tx_digest(self@)));
                        }
                        return false;
                    },
                };
                if sig.len() != 64 || pk.len() != 32 {
                    proof {
                        assert(!input_verifies(self@.inputs[k as int], tx_digest(self@)));
                    }
                    return false;
                }
                if !ed25519_verify(&pk, &digest, &sig) {
                    proof {
                        assert(!input_verifies(self@.inputs[k as int], tx_digest(self@)));
                    }
                    return false;
                }
            }
            k = k + 1;
        }
        true
    }
}

} // verus!
