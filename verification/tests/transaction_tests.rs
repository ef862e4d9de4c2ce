use sierpchain::{Transaction, TxInput, TxOutput, Wallet};

fn coinbase_marker() -> Vec<u8> {
    vec![b'0'; 64]
}

#[test]
fn test_sign_and_verify_transaction() {
    let wallet = Wallet::new();
    let mut tx = Transaction::new(
        vec![TxInput {
            txid: coinbase_marker(),
            vout: 0,
            script_sig: Vec::new(),
            pub_key: Vec::new(),
            sequence: 0,
        }],
        vec![TxOutput { value: 10, script_pub_key: wallet.get_address() }],
    );

    tx.sign(&wallet);
    assert!(tx.verify());
}

#[test]
fn signed_transaction_with_real_input_verifies() {
    let wallet = Wallet::new();
    let receiver = Wallet::new();
    let mut tx = Transaction::new(
        vec![TxInput {
            txid: vec![b'a'; 64],
            vout: 1,
            script_sig: Vec::new(),
            pub_key: Vec::new(),
            sequence: 0,
        }],
        vec![TxOutput { value: 7, script_pub_key: receiver.get_address() }],
    );
    tx.sign(&wallet);
    assert!(tx.verify());
}

#[test]
fn tampered_signature_fails_verification() {
    let wallet = Wallet::new();
    let mut tx = Transaction::new(
        vec![TxInput {
            txid: vec![b'a'; 64],
            vout: 0,
            script_sig: Vec::new(),
            pub_key: Vec::new(),
            sequence: 0,
        }],
        vec![TxOutput { value: 5, script_pub_key: wallet.get_address() }],
    );
    tx.sign(&wallet);
    assert!(tx.verify());

    // Flip one hexadecimal digit of the stored signature.
    let mut broken = Transaction {
        id: tx.id.clone(),
        timestamp: tx.timestamp,
        inputs: tx
            .inputs
            .iter()
            .map(|i| TxInput {
                txid: i.txid.clone(),
                vout: i.vout,
                script_sig: i.script_sig.clone(),
                pub_key: i.pub_key.clone(),
                sequence: i.sequence,
            })
            .collect(),
        outputs: tx
            .outputs
            .iter()
            .map(|o| TxOutput { value: o.value, script_pub_key: o.script_pub_key.clone() })
            .collect(),
    };
    let c = broken.inputs[0].script_sig[0];
    broken.inputs[0].script_sig[0] = if c == b'0' { b'1' } else { b'0' };
    assert!(!broken.verify());

    // Changing an output changes the pre-signature id, so the old
    // signature no longer binds the content.
    broken.inputs[0].script_sig = tx.inputs[0].script_sig.clone();
    broken.outputs[0].value = 6;
    assert!(!broken.verify());
}

#[test]
fn malformed_signature_encoding_fails_closed() {
    let wallet = Wallet::new();
    let mut tx = Transaction::new(
        vec![TxInput {
            txid: vec![b'b'; 64],
            vout: 0,
            script_sig: Vec::new(),
            pub_key: Vec::new(),
            sequence: 0,
        }],
        vec![TxOutput { value: 3, script_pub_key: wallet.get_address() }],
    );
    tx.sign(&wallet);
    // An odd-length hexadecimal string decodes to nothing.
    tx.inputs[0].script_sig.pop();
    assert!(!tx.verify());
}

#[test]
fn transaction_id_is_stable_under_signing() {
    let wallet = Wallet::new();
    let mut tx = Transaction::new(
        vec![TxInput {
            txid: vec![b'c'; 64],
            vout: 2,
            script_sig: Vec::new(),
            pub_key: Vec::new(),
            sequence: 0,
        }],
        vec![TxOutput { value: 9, script_pub_key: wallet.get_address() }],
    );
    let id_before = tx.id.clone();
    tx.sign(&wallet);
    assert_eq!(tx.id, id_before);
    assert_eq!(tx.calculate_hash(), id_before);
    assert_eq!(id_before.len(), 64);
}
