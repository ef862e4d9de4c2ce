use sierpchain::{
    FractalData, Node, NodeAction, P2pMessage, Sierpinski, SubmitError, Transaction, TxInput,
    TxOutput, Wallet,
};

fn sierpinski(depth: u64) -> FractalData {
    FractalData::Sierpinski(Sierpinski { depth, seed: 0, vertices: Vec::new() })
}

#[test]
fn mined_reward_then_spend_updates_balances() {
    let mut node = Node::new(1).unwrap();
    let miner_wallet = Wallet::new();
    let receiver = Wallet::new();

    // Mine one block: the coinbase pays the miner 50.
    node.mine_now(&miner_wallet, &sierpinski(1)).unwrap();
    assert_eq!(node.blockchain.get_balance(&miner_wallet.get_address()), 50);

    // Spend 10 of it.
    let tx = node.submit_transaction(&miner_wallet, &receiver.get_address(), 10).unwrap();
    assert!(tx.verify());
    assert_eq!(node.pool.len(), 1);

    // Mine the pooled transaction into the next block.
    node.mine_now(&miner_wallet, &sierpinski(1)).unwrap();
    assert_eq!(node.pool.len(), 0);

    assert_eq!(node.blockchain.get_balance(&receiver.get_address()), 10);
    // 50 - 10 spent + 50 fresh reward.
    assert_eq!(node.blockchain.get_balance(&miner_wallet.get_address()), 90);
}

#[test]
fn overspending_is_rejected_before_signing() {
    let mut node = Node::new(1).unwrap();
    let miner_wallet = Wallet::new();
    let receiver = Wallet::new();
    node.mine_now(&miner_wallet, &sierpinski(1)).unwrap();
    assert_eq!(node.blockchain.get_balance(&miner_wallet.get_address()), 50);

    let r = node.submit_transaction(&miner_wallet, &receiver.get_address(), 51);
    assert!(matches!(r, Err(SubmitError::InsufficientFunds)));
    assert_eq!(node.pool.len(), 0);
    assert_eq!(node.blockchain.get_balance(&miner_wallet.get_address()), 50);
}

#[test]
fn spend_of_entire_balance_leaves_no_change() {
    let mut node = Node::new(1).unwrap();
    let miner_wallet = Wallet::new();
    let receiver = Wallet::new();
    node.mine_now(&miner_wallet, &sierpinski(1)).unwrap();

    let tx = node.submit_transaction(&miner_wallet, &receiver.get_address(), 50).unwrap();
    assert_eq!(tx.outputs.len(), 1);
    node.mine_now(&miner_wallet, &sierpinski(1)).unwrap();
    assert_eq!(node.blockchain.get_balance(&receiver.get_address()), 50);
    // The old reward is gone; only the fresh one remains.
    assert_eq!(node.blockchain.get_balance(&miner_wallet.get_address()), 50);
}

#[test]
fn chain_request_returns_snapshot_unchanged() {
    let mut node = Node::new(1).unwrap();
    let before_len = node.blockchain.chain.len();
    match node.handle_message(P2pMessage::ChainRequest) {
        NodeAction::ShareChain(snapshot) => {
            assert_eq!(snapshot.chain.len(), before_len);
            assert_eq!(snapshot.difficulty, node.blockchain.difficulty);
            assert_eq!(snapshot.chain[0].hash, node.blockchain.chain[0].hash);
        },
        _ => panic!("a chain request must be answered with a snapshot"),
    }
    assert_eq!(node.blockchain.chain.len(), before_len);
}

#[test]
fn verified_transaction_enters_pool_once() {
    let mut node = Node::new(1).unwrap();
    let wallet = Wallet::new();
    let mut tx = Transaction::new(
        vec![TxInput {
            txid: vec![b'a'; 64],
            vout: 0,
            script_sig: Vec::new(),
            pub_key: Vec::new(),
            sequence: 0,
        }],
        vec![TxOutput { value: 4, script_pub_key: wallet.get_address() }],
    );
    tx.sign(&wallet);
    let copy = Transaction {
        id: tx.id.clone(),
        timestamp: tx.timestamp,
        inputs: tx
            .inputs
            .iter()
            .map(|i| TxInput {
                txid: i.txid.clone(),
                vout: i.vout,
                script_sig: i.script_sig.clone(),
                pub_key: i.pub_key.clone(),
                sequence: i.sequence,
            })
            .collect(),
        outputs: tx
            .outputs
            .iter()
            .map(|o| TxOutput { value: o.value, script_pub_key: o.script_pub_key.clone() })
            .collect(),
    };

    node.handle_message(P2pMessage::Transaction(tx));
    assert_eq!(node.pool.len(), 1);
    // The same id again is not pooled twice.
    node.handle_message(P2pMessage::Transaction(copy));
    assert_eq!(node.pool.len(), 1);
}

#[test]
fn unsigned_transaction_is_not_pooled() {
    let mut node = Node::new(1).unwrap();
    let wallet = Wallet::new();
    let tx = Transaction::new(
        vec![TxInput {
            txid: vec![b'a'; 64],
            vout: 0,
            script_sig: Vec::new(),
            pub_key: Vec::new(),
            sequence: 0,
        }],
        vec![TxOutput { value: 4, script_pub_key: wallet.get_address() }],
    );
    node.handle_message(P2pMessage::Transaction(tx));
    assert_eq!(node.pool.len(), 0);
}

#[test]
fn longer_foreign_chain_replaces_local_state() {
    let mut node = Node::new(1).unwrap();
    let mut donor = Node::new(1).unwrap();
    let wallet = Wallet::new();
    for _ in 0..4 {
        donor.mine_now(&wallet, &sierpinski(0)).unwrap();
    }
    assert_eq!(donor.blockchain.chain.len(), 5);
    assert_eq!(node.blockchain.chain.len(), 1);

    let snapshot = match donor.handle_message(P2pMessage::ChainRequest) {
        NodeAction::ShareChain(s) => s,
        _ => panic!("a chain request must be answered with a snapshot"),
    };
    match node.handle_message(P2pMessage::ChainResponse(snapshot)) {
        NodeAction::ChainReplaced => {},
        _ => panic!("a longer chain must replace the local one"),
    }
    assert_eq!(node.blockchain.chain.len(), 5);
}

#[test]
fn gossiped_block_is_accepted_then_deduplicated() {
    let mut source = Node::new(1).unwrap();
    let mut sink = Node::new(1).unwrap();
    let wallet = Wallet::new();

    // The two nodes mined different genesis blocks, so first bring the
    // sink onto the source's history with a longer snapshot.
    source.mine_now(&wallet, &sierpinski(0)).unwrap();
    let longer = match source.handle_message(P2pMessage::ChainRequest) {
        NodeAction::ShareChain(s) => s,
        _ => panic!("no snapshot"),
    };
    match sink.handle_message(P2pMessage::ChainResponse(longer)) {
        NodeAction::ChainReplaced => {},
        _ => panic!("the longer chain must be taken"),
    }

    // Now a block mined on the source extends the sink too.
    let mined = source.mine_now(&wallet, &sierpinski(0)).unwrap();
    let copy = || P2pMessage::Block(sierpchain_block_copy(&mined));
    match sink.handle_message(copy()) {
        NodeAction::AnnounceBlock(b) => assert_eq!(b.hash, mined.hash),
        _ => panic!("a valid foreign block must be announced"),
    }
    let len_after = sink.blockchain.chain.len();
    // Duplicate delivery is tolerated: the second copy is dropped.
    match sink.handle_message(copy()) {
        NodeAction::Nothing => {},
        _ => panic!("a duplicate block must be dropped"),
    }
    assert_eq!(sink.blockchain.chain.len(), len_after);
}

fn sierpchain_block_copy(b: &sierpchain::Block) -> sierpchain::Block {
    sierpchain::Block {
        index: b.index,
        timestamp: b.timestamp,
        fractal: b.fractal.duplicate(),
        transactions: b
            .transactions
            .iter()
            .map(|t| Transaction {
                id: t.id.clone(),
                timestamp: t.timestamp,
                inputs: t
                    .inputs
                    .iter()
                    .map(|i| TxInput {
                        txid: i.txid.clone(),
                        vout: i.vout,
                        script_sig: i.script_sig.clone(),
                        pub_key: i.pub_key.clone(),
                        sequence: i.sequence,
                    })
                    .collect(),
                outputs: t
                    .outputs
                    .iter()
                    .map(|o| TxOutput { value: o.value, script_pub_key: o.script_pub_key.clone() })
                    .collect(),
            })
            .collect(),
        previous_hash: b.previous_hash.clone(),
        hash: b.hash.clone(),
        nonce: b.nonce,
    }
}

#[test]
fn lcg_sequence_is_deterministic() {
    let mut a = sierpchain::Lcg::new(42);
    let mut b = sierpchain::Lcg::new(42);
    let first = a.next();
    assert_eq!(first, b.next());
    assert_eq!(a.next(), b.next());
    // The POSIX parameters applied once to seed 42.
    assert_eq!(first, 42u64.wrapping_mul(1103515245).wrapping_add(12345));
}

#[test]
fn discovered_peer_is_registered_and_asked_for_its_chain() {
    let mut peers: Vec<u64> = Vec::new();
    let r = sierpchain::on_peer_event(&mut peers, sierpchain::PeerEvent::Discovered(7));
    assert!(matches!(r, Some(P2pMessage::ChainRequest)));
    assert_eq!(peers, vec![7]);

    // A second discovery of the same peer does not double-register it.
    let r = sierpchain::on_peer_event(&mut peers, sierpchain::PeerEvent::Connected(7));
    assert!(matches!(r, Some(P2pMessage::ChainRequest)));
    assert_eq!(peers, vec![7]);
}

#[test]
fn departed_peer_is_dropped_and_nothing_is_sent() {
    let mut peers: Vec<u64> = Vec::new();
    sierpchain::on_peer_event(&mut peers, sierpchain::PeerEvent::Discovered(7));
    sierpchain::on_peer_event(&mut peers, sierpchain::PeerEvent::Connected(9));
    assert_eq!(peers, vec![7, 9]);

    let r = sierpchain::on_peer_event(&mut peers, sierpchain::PeerEvent::Disconnected(7));
    assert!(r.is_none());
    assert_eq!(peers, vec![9]);

    let r = sierpchain::on_peer_event(&mut peers, sierpchain::PeerEvent::Expired(9));
    assert!(r.is_none());
    assert!(peers.is_empty());
}
