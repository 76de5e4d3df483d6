use corelib::errors::Error;
use corelib::mempool::{MemPool, PriorityEntry};
use corelib::test_utils::create_mock_transaction;
use corelib::transaction::Transaction;
use corelib::utxo::UTXO;

#[test]
fn test_add_transaction() {
    let mut mempool = MemPool::new(5);
    let (txn1, us1) = create_mock_transaction(1000, 999).unwrap();
    let (_, _, fee) = txn1.verify(&us1).unwrap();
    assert!(mempool.add_transaction(txn1, fee).is_ok());

    assert!(mempool.len() == 1);

    let (txn2, us2) = create_mock_transaction(1000, 996).unwrap();
    let (_, _, fee) = txn2.verify(&us2).unwrap();
    assert!(mempool.add_transaction(txn2.clone(), fee).is_ok());
    assert!(mempool.len() == 2);

    let result = mempool.add_transaction(txn2, fee);

    match result {
        Ok(_) => panic!("Shouldn't work"),
        Err(Error::TxnExistInMempool) => println!("Passed"),
        Err(e) => panic!("shoundn't have given this error:{:?}", e),
    }
}

#[test]
fn reject_low_fee() {
    let mut mempool = MemPool::new(1);
    let (txn1, us1) = create_mock_transaction(1000000, 99000).unwrap();
    let (_, _, fee) = txn1.verify(&us1).unwrap();
    mempool.add_transaction(txn1.clone(), fee).unwrap();

    let (txn2, us2) = create_mock_transaction(1000, 996).unwrap();
    let (_, _, fee) = txn2.verify(&us2).unwrap();
    assert!(mempool.add_transaction(txn2.clone(), fee).is_err());

    assert!(mempool.contains(&txn1.hash_id))
}

/// A transaction of 197 bytes that differs from others by its timestamp.
fn plain(stamp: u128) -> Transaction {
    let mut t = Transaction::new_at(&[5u8; 32], [6u8; 32], stamp);
    t.add_outputs(vec![UTXO::new(1, 1).unwrap()], &[5u8; 32]).unwrap();
    t
}

#[test]
fn size_is_the_length_of_the_encoding() {
    let t = plain(1);
    assert_eq!(t.size(), 197);
    assert_eq!(t.encode().unwrap().len(), 197);
    let empty = Transaction::new_at(&[5u8; 32], [6u8; 32], 1);
    assert_eq!(empty.size(), 184);
    let (mock, _) = create_mock_transaction(5000, 4000).unwrap();
    assert_eq!(mock.size(), mock.encode().unwrap().len() as u64);
}

#[test]
fn eviction_takes_the_cheapest() {
    let mut pool = MemPool::new(1);
    let (tx1, tx2, tx3) = (plain(1), plain(2), plain(3));
    assert_eq!(pool.add_transaction_at(tx1.clone(), 100 * 197, 10), Ok(()));
    assert_eq!(pool.add_transaction_at(tx2.clone(), 5 * 197, 11), Err(Error::TxnLowFee));
    assert!(pool.contains(&tx1.hash_id));
    assert!(!pool.contains(&tx2.hash_id));
    assert_eq!(pool.len(), 1);
    assert_eq!(pool.add_transaction_at(tx3.clone(), 200 * 197, 12), Ok(()));
    assert!(!pool.contains(&tx1.hash_id));
    assert!(pool.contains(&tx3.hash_id));
    assert_eq!(pool.len(), 1);
    assert_eq!(pool.get(&tx3.hash_id), Some(&tx3));
    assert_eq!(pool.get(&tx1.hash_id), None);
}

#[test]
fn equal_fee_does_not_evict() {
    let mut pool = MemPool::new(2);
    let (tx1, tx2, tx3, tx4) = (plain(1), plain(2), plain(3), plain(4));
    pool.add_transaction_at(tx1.clone(), 10 * 197, 10).unwrap();
    pool.add_transaction_at(tx2.clone(), 7 * 197 + 196, 11).unwrap();
    assert_eq!(pool.add_transaction_at(tx3.clone(), 7 * 197, 1), Err(Error::TxnLowFee));
    assert_eq!(pool.add_transaction_at(tx4.clone(), 8 * 197, 12), Ok(()));
    assert!(pool.contains(&tx1.hash_id) && pool.contains(&tx4.hash_id));
    assert!(!pool.contains(&tx2.hash_id));
    assert_eq!(pool.len(), pool.max_size());
}

#[test]
fn pool_without_room_takes_nothing() {
    let mut pool = MemPool::new(0);
    assert_eq!(pool.add_transaction_at(plain(1), u64::MAX, 1), Err(Error::TxnLowFee));
    assert_eq!(pool.add_transaction(plain(1), u64::MAX), Err(Error::TxnLowFee));
    assert_eq!(pool.len(), 0);
}

#[test]
fn duplicates_are_refused_before_anything_else() {
    let mut pool = MemPool::new(1);
    let tx = plain(1);
    pool.add_transaction_at(tx.clone(), 1000, 1).unwrap();
    assert_eq!(pool.add_transaction_at(tx.clone(), 9_000_000, 2), Err(Error::TxnExistInMempool));
    assert_eq!(pool.add_transaction(tx.clone(), 0), Err(Error::TxnExistInMempool));
    assert_eq!(pool.len(), 1);
}

#[test]
fn block_draw_takes_the_best_paying_first() {
    let mut pool = MemPool::new(10);
    let txs: Vec<Transaction> = (1..=5).map(|i| plain(i)).collect();
    pool.add_transaction_at(txs[0].clone(), 3 * 197, 50).unwrap();
    pool.add_transaction_at(txs[1].clone(), 9 * 197, 51).unwrap();
    pool.add_transaction_at(txs[2].clone(), 5 * 197, 52).unwrap();
    pool.add_transaction_at(txs[3].clone(), 9 * 197, 40).unwrap();
    pool.add_transaction_at(txs[4].clone(), 5 * 197, 52).unwrap();
    let drawn = pool.get_transactions_for_block(3 * 197 + 1);
    assert_eq!(drawn, vec![txs[3].clone(), txs[1].clone(), txs[2].clone()]);
    assert_eq!(pool.len(), 2);
    assert!(!pool.contains(&txs[3].hash_id));
    assert!(pool.contains(&txs[4].hash_id) && pool.contains(&txs[0].hash_id));
    assert_eq!(pool.get_transactions_for_block(197), Vec::<Transaction>::new());
    assert_eq!(pool.get_transactions_for_block(0), Vec::<Transaction>::new());
    assert_eq!(pool.get_transactions_for_block(198), vec![txs[4].clone()]);
    assert_eq!(pool.get_transactions_for_block(usize::MAX), vec![txs[0].clone()]);
    assert_eq!(pool.len(), 0);
    assert_eq!(pool.get_transactions_for_block(usize::MAX), Vec::<Transaction>::new());
}

#[test]
fn block_draw_stops_at_the_first_that_does_not_fit() {
    let mut pool = MemPool::new(10);
    let mut big = Transaction::new_at(&[5u8; 32], [6u8; 32], 9);
    big.add_outputs(
        vec![UTXO::new(1, 1).unwrap(), UTXO::new(1, 2).unwrap(), UTXO::new(1, 3).unwrap()],
        &[5u8; 32],
    )
    .unwrap();
    assert_eq!(big.size(), 223);
    let small = plain(1);
    let cheap = plain(2);
    pool.add_transaction_at(small.clone(), 50 * 197, 1).unwrap();
    pool.add_transaction_at(big.clone(), 40 * 223, 2).unwrap();
    pool.add_transaction_at(cheap.clone(), 30 * 197, 3).unwrap();
    let drawn = pool.get_transactions_for_block(197 + 200);
    assert_eq!(drawn, vec![small]);
    assert_eq!(pool.len(), 2);
    assert!(pool.contains(&big.hash_id) && pool.contains(&cheap.hash_id));
}

#[test]
fn removal_takes_one_transaction_out() {
    let mut pool = MemPool::new(3);
    let (tx1, tx2, tx3) = (plain(1), plain(2), plain(3));
    pool.add_transaction_at(tx1.clone(), 1000, 1).unwrap();
    pool.add_transaction_at(tx2.clone(), 2000, 2).unwrap();
    pool.add_transaction_at(tx3.clone(), 3000, 3).unwrap();
    assert_eq!(pool.remove_transaction(&tx2.hash_id), Some(tx2.clone()));
    assert_eq!(pool.remove_transaction(&tx2.hash_id), None);
    assert_eq!(pool.len(), 2);
    assert!(pool.contains(&tx1.hash_id) && pool.contains(&tx3.hash_id));
    assert_eq!(pool.get_transactions_for_block(usize::MAX), vec![tx3, tx1]);
}

#[test]
fn entries_rank_by_fee_then_age() {
    let entry = |fee_per_byte: u64, timestamp: u128| PriorityEntry {
        fee_per_byte,
        timestamp,
        size: 1,
        txn_hash: [0u8; 32],
    };
    assert!(entry(5, 9).outranks(&entry(4, 1)));
    assert!(!entry(4, 1).outranks(&entry(5, 9)));
    assert!(entry(5, 1).outranks(&entry(5, 2)));
    assert!(!entry(5, 2).outranks(&entry(5, 1)));
    assert!(!entry(5, 2).outranks(&entry(5, 2)));
}

#[test]
fn pool_stamps_the_clock() {
    let mut pool = MemPool::new(2);
    pool.add_transaction(plain(1), 10 * 197).unwrap();
    pool.add_transaction_at(plain(2), 10 * 197, u128::MAX).unwrap();
    pool.add_transaction_at(plain(3), 11 * 197, 0).unwrap();
    let drawn = pool.get_transactions_for_block(usize::MAX);
    assert_eq!(drawn, vec![plain(3), plain(1)]);
}

fn codec_error<T>() -> Result<T, Error> {
    Err(Error::Protocol(corelib::errors::ProtocolError::SerializationError))
}

#[test]
fn pool_round_trip_and_layout() {
    let mut pool = MemPool::new(4);
    let (tx1, tx2) = (plain(1), plain(2));
    pool.add_transaction_at(tx1.clone(), 3 * 197, 50).unwrap();
    pool.add_transaction_at(tx2.clone(), 9 * 197, 51).unwrap();
    let bytes = pool.encode().unwrap();

    let mut expected = borsh::to_vec(&4u64).unwrap();
    expected.extend_from_slice(&2u32.to_le_bytes());
    for t in [&tx2, &tx1] {
        expected.extend_from_slice(&t.hash_id);
        expected.extend(t.encode().unwrap());
    }
    expected.extend_from_slice(&2u32.to_le_bytes());
    expected.extend(borsh::to_vec(&(9u64, 51u128, 197u64, tx2.hash_id)).unwrap());
    expected.extend(borsh::to_vec(&(3u64, 50u128, 197u64, tx1.hash_id)).unwrap());
    assert_eq!(bytes, expected);

    let mut back = MemPool::decode(&bytes).unwrap();
    assert_eq!(back.len(), 2);
    assert_eq!(back.max_size(), 4);
    assert_eq!(back.entries(), pool.entries());
    assert_eq!(back.transactions(), pool.transactions());
    assert_eq!(back.get_transactions_for_block(usize::MAX), vec![tx2, tx1]);

    let empty = MemPool::new(0);
    let bytes = empty.encode().unwrap();
    assert_eq!(bytes, vec![0u8; 16]);
    assert_eq!(MemPool::decode(&bytes).unwrap().len(), 0);
}

#[test]
fn pool_decoding_refuses_what_is_no_pool() {
    let mut pool = MemPool::new(4);
    let (tx1, tx2) = (plain(1), plain(2));
    pool.add_transaction_at(tx1.clone(), 3 * 197, 50).unwrap();
    pool.add_transaction_at(tx2.clone(), 9 * 197, 51).unwrap();
    let bytes = pool.encode().unwrap();
    assert!(MemPool::decode(&bytes[..bytes.len() - 1]).is_err());
    let mut longer = bytes.clone();
    longer.push(0);
    assert!(matches!(MemPool::decode(&longer), Err(Error::Protocol(_))));

    let mut small_bound = bytes.clone();
    small_bound[0] = 1;
    assert!(MemPool::decode(&small_bound).is_err());

    let mut wrong_key = bytes.clone();
    wrong_key[12] ^= 1;
    assert!(MemPool::decode(&wrong_key).is_err());

    let entries_at = 8 + 4 + 2 * (32 + 197) + 4;
    let mut unsorted = bytes.clone();
    unsorted[entries_at] = 1;
    assert!(MemPool::decode(&unsorted).is_err());

    let mut other_hash = bytes.clone();
    let last = other_hash.len() - 1;
    other_hash[last] ^= 1;
    assert!(MemPool::decode(&other_hash).is_err());
    assert!(MemPool::from_parts(vec![tx1.clone()], vec![], 4).is_none());
    assert!(MemPool::from_parts(vec![], vec![], 0).is_some());
    let entry = |t: &Transaction, fee: u64| PriorityEntry {
        fee_per_byte: fee,
        timestamp: 0,
        size: 197,
        txn_hash: t.hash_id,
    };
    assert!(MemPool::from_parts(
        vec![tx1.clone(), tx2.clone()],
        vec![entry(&tx1, 5), entry(&tx2, 5)],
        2
    )
    .is_some());
    assert!(MemPool::from_parts(
        vec![tx1.clone(), tx2.clone()],
        vec![entry(&tx1, 5), entry(&tx2, 6)],
        2
    )
    .is_none());
    assert!(MemPool::from_parts(
        vec![tx1.clone(), tx1.clone()],
        vec![entry(&tx1, 5), entry(&tx1, 5)],
        2
    )
    .is_none());
    assert!(MemPool::from_parts(
        vec![tx1.clone(), tx2.clone()],
        vec![entry(&tx1, 5), entry(&tx2, 5)],
        1
    )
    .is_none());
    let _: Result<MemPool, Error> = codec_error();
}
