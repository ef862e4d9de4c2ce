use sierpchain::{
    Block, Blockchain, FractalData, Miner, Sierpinski, Transaction, TxInput, TxOutput, Wallet,
};

fn sierpinski(depth: u64) -> FractalData {
    FractalData::Sierpinski(Sierpinski { depth, seed: 0, vertices: Vec::new() })
}

#[test]
fn test_get_balance_and_utxos() {
    let mut blockchain = Blockchain::new(1).unwrap();
    let wallet1 = Wallet::new();
    let wallet2 = Wallet::new();

    let tx1 = Transaction::new(
        vec![],
        vec![
            TxOutput { value: 20, script_pub_key: wallet1.get_address() },
            TxOutput { value: 30, script_pub_key: wallet1.get_address() },
        ],
    );

    let tx2 = Transaction::new(
        vec![TxInput {
            txid: tx1.id.clone(),
            vout: 0,
            script_sig: Vec::new(),
            pub_key: Vec::new(),
            sequence: 0,
        }],
        vec![TxOutput { value: 20, script_pub_key: wallet2.get_address() }],
    );

    let _ = blockchain.add_block(&sierpinski(1), vec![tx1]).unwrap();
    let _ = blockchain.add_block(&sierpinski(1), vec![tx2]).unwrap();

    assert_eq!(blockchain.get_balance(&wallet1.get_address()), 30);
    assert_eq!(blockchain.get_balance(&wallet2.get_address()), 20);

    assert_eq!(blockchain.get_utxos(&wallet1.get_address()).len(), 1);
    assert_eq!(blockchain.get_utxos(&wallet2.get_address()).len(), 1);
}

#[test]
fn genesis_block_is_mined_and_linked() {
    let blockchain = Blockchain::new(1).unwrap();
    assert_eq!(blockchain.chain.len(), 1);
    assert_eq!(blockchain.difficulty, 1);
    let genesis = &blockchain.chain[0];
    assert_eq!(genesis.index, 0);
    assert_eq!(genesis.hash, genesis.calculate_hash());
    assert_eq!(genesis.hash[0], b'0');
    assert_eq!(genesis.hash.len(), 64);
}

#[test]
fn chain_links_every_block_to_its_parent() {
    let mut blockchain = Blockchain::new(1).unwrap();
    for depth in 0..3u64 {
        blockchain.add_block(&sierpinski(depth), vec![]).unwrap();
    }
    assert_eq!(blockchain.chain.len(), 4);
    for i in 1..blockchain.chain.len() {
        assert_eq!(blockchain.chain[i].previous_hash, blockchain.chain[i - 1].hash);
        assert_eq!(blockchain.chain[i].index, blockchain.chain[i - 1].index + 1);
    }
}

#[test]
fn recomputed_hash_matches_and_reacts_to_any_field() {
    let mut blockchain = Blockchain::new(1).unwrap();
    let mined = blockchain.add_block(&sierpinski(2), vec![]).unwrap();
    assert_eq!(mined.hash, mined.calculate_hash());

    let rebuild = |f: &dyn Fn(&mut Block)| {
        let mut b = Block {
            index: mined.index,
            timestamp: mined.timestamp,
            fractal: mined.fractal.duplicate(),
            transactions: Vec::new(),
            previous_hash: mined.previous_hash.clone(),
            hash: mined.hash.clone(),
            nonce: mined.nonce,
        };
        f(&mut b);
        b
    };
    let base = rebuild(&|_| {});
    let base_hash = base.calculate_hash();

    let changed_index = rebuild(&|b| b.index += 1);
    assert_ne!(changed_index.calculate_hash(), base_hash);
    let changed_time = rebuild(&|b| b.timestamp += 1);
    assert_ne!(changed_time.calculate_hash(), base_hash);
    let changed_nonce = rebuild(&|b| b.nonce += 1);
    assert_ne!(changed_nonce.calculate_hash(), base_hash);
    let changed_parent = rebuild(&|b| b.previous_hash = vec![b'f'; 64]);
    assert_ne!(changed_parent.calculate_hash(), base_hash);
    let changed_fractal = rebuild(&|b| b.fractal = b.fractal.with_seed(77));
    assert_ne!(changed_fractal.calculate_hash(), base_hash);

    // The stored hash itself never feeds the computation.
    let changed_hash = rebuild(&|b| b.hash = vec![b'f'; 64]);
    assert_eq!(changed_hash.calculate_hash(), base_hash);
}

#[test]
fn foreign_block_accepted_once_and_only_once() {
    let mut blockchain = Blockchain::new(1).unwrap();
    let genesis = &blockchain.chain[0];
    let candidate = Block {
        index: 1,
        timestamp: genesis.timestamp,
        fractal: sierpinski(1),
        transactions: Vec::new(),
        previous_hash: genesis.hash.clone(),
        hash: Vec::new(),
        nonce: 0,
    };
    let foreign = Miner::mine_block(1, &sierpinski(1), candidate).unwrap();

    let copy = Block {
        index: foreign.index,
        timestamp: foreign.timestamp,
        fractal: foreign.fractal.duplicate(),
        transactions: Vec::new(),
        previous_hash: foreign.previous_hash.clone(),
        hash: foreign.hash.clone(),
        nonce: foreign.nonce,
    };

    assert!(blockchain.add_block_from_network(foreign));
    assert_eq!(blockchain.chain.len(), 2);
    // The same valid block a second time fails the index check.
    assert!(!blockchain.add_block_from_network(copy));
    assert_eq!(blockchain.chain.len(), 2);
}

#[test]
fn tampered_foreign_block_is_rejected() {
    let mut blockchain = Blockchain::new(1).unwrap();
    let genesis = &blockchain.chain[0];
    let candidate = Block {
        index: 1,
        timestamp: genesis.timestamp,
        fractal: sierpinski(1),
        transactions: Vec::new(),
        previous_hash: genesis.hash.clone(),
        hash: Vec::new(),
        nonce: 0,
    };
    let mut foreign = Miner::mine_block(1, &sierpinski(1), candidate).unwrap();
    // Claiming a different nonce invalidates the stored hash.
    foreign.nonce += 1;
    assert!(!blockchain.add_block_from_network(foreign));
    assert_eq!(blockchain.chain.len(), 1);
}

fn dummy_block(index: u64, timestamp: i64) -> Block {
    Block {
        index,
        timestamp,
        fractal: sierpinski(0),
        transactions: Vec::new(),
        previous_hash: Vec::new(),
        hash: Vec::new(),
        nonce: 0,
    }
}

#[test]
fn difficulty_rises_when_blocks_come_fast() {
    let chain: Vec<Block> = (0..11).map(|i| dummy_block(i, 1000)).collect();
    let mut blockchain = Blockchain { chain, difficulty: 1 };
    blockchain.adjust_difficulty();
    assert_eq!(blockchain.difficulty, 2);
}

#[test]
fn difficulty_falls_when_blocks_come_slow_but_never_below_one() {
    let chain: Vec<Block> = (0..11).map(|i| dummy_block(i, (i as i64) * 1000)).collect();
    let mut blockchain = Blockchain { chain, difficulty: 2 };
    blockchain.adjust_difficulty();
    assert_eq!(blockchain.difficulty, 1);
    // Even slower history cannot push it below the floor of one.
    blockchain.adjust_difficulty();
    assert_eq!(blockchain.difficulty, 1);
}

#[test]
fn difficulty_untouched_between_adjustment_intervals() {
    let chain: Vec<Block> = (0..10).map(|i| dummy_block(i, 1000)).collect();
    let mut blockchain = Blockchain { chain, difficulty: 3 };
    blockchain.adjust_difficulty();
    assert_eq!(blockchain.difficulty, 3);
}

#[test]
fn longer_chain_replaces_shorter() {
    let short: Vec<Block> = (0..3).map(|i| dummy_block(i, 0)).collect();
    let long: Vec<Block> = (0..5).map(|i| dummy_block(i, 0)).collect();
    let mut local = Blockchain { chain: short, difficulty: 2 };
    let foreign = Blockchain { chain: long, difficulty: 9 };
    assert!(local.replace_if_longer(foreign));
    assert_eq!(local.chain.len(), 5);
    // The local difficulty is kept.
    assert_eq!(local.difficulty, 2);

    let not_longer = Blockchain { chain: (0..4).map(|i| dummy_block(i, 0)).collect(), difficulty: 1 };
    assert!(!local.replace_if_longer(not_longer));
    assert_eq!(local.chain.len(), 5);
}
