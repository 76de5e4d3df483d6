use corelib::block::{hash_meets_target, Block};
use corelib::errors::Error;
use corelib::merkle::Tree;
use corelib::test_utils::{generate_key_pairs, generate_random_utxos};
use corelib::transaction::Transaction;

#[test]
fn test_block_hashing() {
    let (signing_key, _, sender, receiver) = generate_key_pairs().unwrap();
    let mut transactions = vec![];

    let mut txn1 = Transaction::new(&signing_key, receiver).unwrap();
    let (input_utxo, output_utxo) = generate_random_utxos(sender, 1_000, 999).unwrap();
    txn1.add_inputs(input_utxo, &signing_key).unwrap();
    txn1.add_outputs(output_utxo, &signing_key).unwrap();

    let mut txn2 = Transaction::new(&signing_key, receiver).unwrap();
    let (input_utxo, output_utxo) = generate_random_utxos(sender, 1_000, 999).unwrap();
    txn2.add_inputs(input_utxo, &signing_key).unwrap();
    txn2.add_outputs(output_utxo, &signing_key).unwrap();

    transactions.push(txn1);
    transactions.push(txn2);

    let block = Block::new(
        1,
        transactions.clone(),
        "previous_hash_example".to_string(),
        10,
    )
    .unwrap();

    // Calculating hash manually to compare with block's hash
    let mut hasher = blake3::Hasher::new();
    hasher.update(&block.index().to_le_bytes());
    hasher.update(&block.timestamp().to_le_bytes());
    transactions.iter().for_each(|t| {
        hasher.update(&t.hash_id);
    });
    hasher.update(&block.nonce().to_le_bytes());
    hasher.update(block.previous_hash().as_bytes());
    hasher.update(&block.merkle_root().root_hash().unwrap());

    let expected_hash = *hasher.finalize().as_bytes();
    assert_eq!(
        block.hash(), expected_hash,
        "Block hash should be correctly calculated."
    );
}

#[test]
fn test_block_mining() {
    let (signing_key, _, sender, receiver) = generate_key_pairs().unwrap();
    let mut transactions = vec![];

    let mut txn1 = Transaction::new(&signing_key, receiver).unwrap();
    let (input_utxo, output_utxo) = generate_random_utxos(sender, 1_000, 999).unwrap();
    txn1.add_inputs(input_utxo, &signing_key).unwrap();
    txn1.add_outputs(output_utxo, &signing_key).unwrap();

    transactions.push(txn1);

    let difficulty = 20;
    let mut block = Block::new(
        1,
        transactions,
        "previous_hash_example".to_string(),
        difficulty,
    )
    .unwrap();

    block.mine_block().unwrap();

    assert!(
        block.is_valid(),
        "Invalid block hash for difficulty:{difficulty}"
    );
}

fn sample_transaction(stamp: u128) -> Transaction {
    Transaction::new_at(&[5u8; 32], [6u8; 32], stamp)
}

fn prefix(hash: &[u8; 32]) -> u128 {
    u128::from_be_bytes(hash[..16].try_into().unwrap())
}

#[test]
fn mining_at_low_difficulty() {
    let block = Block::new_at(7, vec![sample_transaction(1)], "prev".to_string(), 10, 1234).unwrap();
    assert!(prefix(&block.hash()) <= u128::MAX >> 10);
    assert_eq!(block.hash(), block.calculate_hash());
    assert!(block.is_valid());
    assert!(block.is_well_formed());
    assert_eq!(block.index(), 7);
    assert_eq!(block.timestamp(), 1234);
    assert_eq!(block.difficulty(), 10);
    assert_eq!(block.previous_hash(), "prev");
    assert_eq!(block.transactions().len(), 1);
    assert_eq!(
        block.merkle_root().root_hash(),
        Some(block.transactions()[0].hash_id)
    );
}

#[test]
fn mining_finds_the_first_nonce() {
    let txns = vec![sample_transaction(1), sample_transaction(2), sample_transaction(3)];
    let block = Block::new_at(7, txns.clone(), "prev".to_string(), 8, 99).unwrap();
    let root = Tree::with_hashes(&[txns[0].hash_id, txns[1].hash_id, txns[2].hash_id])
        .root_hash()
        .unwrap();
    let hash_for = |nonce: u64| {
        let mut bytes = Vec::new();
        bytes.extend_from_slice(&7u64.to_le_bytes());
        bytes.extend_from_slice(&99u128.to_le_bytes());
        for t in &txns {
            bytes.extend_from_slice(&t.hash_id);
        }
        bytes.extend_from_slice(&nonce.to_le_bytes());
        bytes.extend_from_slice(b"prev");
        bytes.extend_from_slice(&root);
        *blake3::hash(&bytes).as_bytes()
    };
    let mut expected = 0u64;
    while prefix(&hash_for(expected)) > u128::MAX >> 8 {
        expected += 1;
    }
    assert_eq!(block.nonce(), expected);
    assert_eq!(block.hash(), hash_for(expected));
}

#[test]
fn mining_again_keeps_a_mined_block() {
    let mut block = Block::new_at(7, vec![sample_transaction(1)], "p".to_string(), 6, 5).unwrap();
    let before = block.clone();
    assert_eq!(block.mine_block(), Ok(()));
    assert_eq!(block, before);
}

#[test]
fn mining_wraps_past_the_largest_nonce() {
    let mined = Block::new_at(7, vec![sample_transaction(1)], "p".to_string(), 4, 5).unwrap();
    let mut block = Block::from_parts(
        7,
        5,
        mined.transactions().clone(),
        u64::MAX - 1,
        "p".to_string(),
        [0u8; 32],
        4,
        mined.merkle_root().clone(),
    );
    assert_eq!(block.mine_block(), Ok(()));
    assert!(block.is_valid());
    let same_body = |nonce: u64| {
        let b = Block::from_parts(
            7,
            5,
            mined.transactions().clone(),
            nonce,
            "p".to_string(),
            [0u8; 32],
            4,
            mined.merkle_root().clone(),
        );
        hash_meets_target(&b.calculate_hash(), 4)
    };
    if same_body(u64::MAX - 1) {
        assert_eq!(block.nonce(), u64::MAX - 1);
    } else if same_body(u64::MAX) {
        assert_eq!(block.nonce(), u64::MAX);
    } else {
        assert_eq!(block.nonce(), mined.nonce());
    }
}

#[test]
fn empty_blocks_and_bad_difficulties_are_refused() {
    assert!(matches!(
        Block::new(1, vec![], "prev".to_string(), 10),
        Err(Error::InvalidBlock)
    ));
    assert!(matches!(
        Block::new(1, vec![sample_transaction(1)], "prev".to_string(), 0),
        Err(Error::InvalidBlock)
    ));
    assert!(matches!(
        Block::new_at(1, vec![sample_transaction(1)], "prev".to_string(), 128, 5),
        Err(Error::InvalidBlock)
    ));
    assert!(Block::new_at(1, vec![sample_transaction(1)], "prev".to_string(), 1, 5).is_ok());
}

#[test]
fn tampered_blocks_are_invalid() {
    let block = Block::new_at(7, vec![sample_transaction(1)], "prev".to_string(), 8, 5).unwrap();
    let rebuild = |index: u64, nonce: u64, hash: [u8; 32], difficulty: u32, tree: Tree| {
        Block::from_parts(
            index,
            block.timestamp(),
            block.transactions().clone(),
            nonce,
            block.previous_hash().clone(),
            hash,
            difficulty,
            tree,
        )
    };
    let tree = block.merkle_root().clone();
    assert!(rebuild(7, block.nonce(), block.hash(), 8, tree.clone()).is_valid());
    assert!(!rebuild(8, block.nonce(), block.hash(), 8, tree.clone()).is_valid());
    assert!(!rebuild(7, block.nonce() + 1, block.hash(), 8, tree.clone()).is_valid());
    assert!(!rebuild(7, block.nonce(), [0u8; 32], 8, tree.clone()).is_valid());
    assert!(!rebuild(7, block.nonce(), block.hash(), 0, tree.clone()).is_valid());
    assert!(!rebuild(7, block.nonce(), block.hash(), 200, tree.clone()).is_valid());
    assert!(!rebuild(7, block.nonce(), block.hash(), 8, Tree::new()).is_valid());
    assert!(!rebuild(7, block.nonce(), block.hash(), 8, Tree::with_hashes(&[[1u8; 32]])).is_valid());
    let mut unmined = rebuild(7, 0, [0u8; 32], 8, Tree::new());
    let before = unmined.clone();
    assert_eq!(unmined.mine_block(), Err(Error::InvalidBlock));
    assert_eq!(unmined, before);
}

#[test]
fn target_is_a_bound_on_the_leading_bytes() {
    let mut hash = [0xffu8; 32];
    hash[0] = 0x00;
    hash[1] = 0x3f;
    assert!(hash_meets_target(&hash, 10));
    assert!(!hash_meets_target(&hash, 11));
    hash[1] = 0x40;
    assert!(!hash_meets_target(&hash, 10));
    assert!(hash_meets_target(&hash, 9));
    assert!(hash_meets_target(&[0u8; 32], 127));
    assert!(!hash_meets_target(&[0u8; 32], 0));
    assert!(!hash_meets_target(&[0u8; 32], 128));
    let mut last = [0u8; 32];
    last[15] = 1;
    assert!(hash_meets_target(&last, 127));
    last[15] = 2;
    assert!(!hash_meets_target(&last, 127));
    last[15] = 0;
    last[16] = 0xff;
    assert!(hash_meets_target(&last, 127));
}

#[test]
fn block_stamps_the_clock() {
    let block = Block::new(1, vec![sample_transaction(1)], "prev".to_string(), 2).unwrap();
    let now = std::time::SystemTime::now()
        .duration_since(std::time::UNIX_EPOCH)
        .unwrap()
        .as_millis();
    assert!(block.timestamp() <= now && now - block.timestamp() < 60_000);
}

#[test]
fn block_carries_the_tree_over_its_identifiers() {
    let txns = vec![sample_transaction(1), sample_transaction(2), sample_transaction(3)];
    let hashes: Vec<[u8; 32]> = txns.iter().map(|t| t.hash_id).collect();
    let block = Block::new(2, txns.clone(), "prev".to_string(), 3).unwrap();
    assert_eq!(block.merkle_root(), &Tree::with_hashes(&hashes));
    assert_ne!(block.merkle_root(), &Tree::with_hashes(&hashes[..1]));
    let root = block.merkle_root().root_node().unwrap();
    assert_eq!(root.left.as_ref().unwrap().hash, hashes[0]);
    assert!(root.right.as_ref().unwrap().left.is_some());
    let at = Block::new_at(2, txns, "prev".to_string(), 3, 9).unwrap();
    assert_eq!(at.merkle_root(), &Tree::with_hashes(&hashes));
}
