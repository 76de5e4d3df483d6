use corelib::block::Block;
use corelib::errors::{Error, ProtocolError};
use corelib::test_utils::create_mock_transaction;
use corelib::transaction::Transaction;
use corelib::utxo::UTXO;

fn codec_error<T>() -> Result<T, Error> {
    Err(Error::Protocol(ProtocolError::SerializationError))
}

fn confirmed() -> UTXO {
    UTXO::Confirmed {
        id: [7u8; 32],
        script_pubkey: "clé OP_CHECKSIG".to_string(),
        value: 77,
        txn_hash: [9u8; 32],
        index: 2,
        created_at: 3,
        block_height: 4,
        is_coinbase: true,
    }
}

#[test]
fn utxo_bytes_match_borsh() {
    let pending = UTXO::new(0x0102030405060708, 9).unwrap();
    let mut expected = vec![0u8];
    expected.extend(borsh::to_vec(&(0x0102030405060708u64, 9u32)).unwrap());
    assert_eq!(pending.encode().unwrap(), expected);
    assert_eq!(expected.len(), 13);

    let mut expected = vec![1u8];
    expected.extend(
        borsh::to_vec(&(
            [7u8; 32],
            "clé OP_CHECKSIG".to_string(),
            77u64,
            [9u8; 32],
            2u32,
            3u32,
            4u32,
            true,
        ))
        .unwrap(),
    );
    assert_eq!(confirmed().encode().unwrap(), expected);
    assert_eq!(expected.len(), 90 + 16);
}

#[test]
fn utxo_round_trip() {
    for u in [UTXO::new(5, 6).unwrap(), confirmed()] {
        let bytes = u.encode().unwrap();
        assert_eq!(UTXO::decode(&bytes), Ok(u.clone()));
        assert_eq!(UTXO::decode(&bytes[..bytes.len() - 1]), codec_error());
        let mut longer = bytes.clone();
        longer.push(0);
        assert_eq!(UTXO::decode(&longer), codec_error());
    }
}

#[test]
fn utxo_decoding_refuses_what_is_no_encoding() {
    assert_eq!(UTXO::decode(&[]), codec_error());
    assert_eq!(UTXO::decode(&[2, 0, 0, 0, 0, 0, 0, 0, 0, 0, 0, 0, 0]), codec_error());
    let mut bytes = confirmed().encode().unwrap();
    let last = bytes.len() - 1;
    bytes[last] = 2;
    assert_eq!(UTXO::decode(&bytes), codec_error());
    let mut bytes = confirmed().encode().unwrap();
    bytes[33 + 4 + 2] = 0xff;
    assert_eq!(UTXO::decode(&bytes), codec_error());
}

#[test]
fn transaction_round_trip_and_layout() {
    let (txn, _) = create_mock_transaction(3000, 2000).unwrap();
    let bytes = txn.encode().unwrap();
    assert_eq!(Transaction::decode(&bytes), Ok(txn.clone()));
    assert_eq!(Transaction::decode(&bytes[1..]), codec_error());
    let mut expected = borsh::to_vec(&(txn.hash_id, txn.sender, txn.receiver, txn.timestamp)).unwrap();
    expected.extend_from_slice(&txn.signature);
    expected.extend_from_slice(&(txn.inputs.len() as u32).to_le_bytes());
    for u in &txn.inputs {
        expected.extend(u.encode().unwrap());
    }
    expected.extend_from_slice(&(txn.outputs.len() as u32).to_le_bytes());
    for u in &txn.outputs {
        expected.extend(u.encode().unwrap());
    }
    assert_eq!(bytes, expected);
    let mut longer = bytes.clone();
    longer.push(1);
    assert_eq!(Transaction::decode(&longer), codec_error());
    let mut many = bytes.clone();
    let at = 176;
    many[at..at + 4].copy_from_slice(&u32::MAX.to_le_bytes());
    assert_eq!(Transaction::decode(&many), codec_error());
}

#[test]
fn block_round_trip() {
    let (a, _) = create_mock_transaction(3000, 2000).unwrap();
    let (b, _) = create_mock_transaction(30, 20).unwrap();
    let (c, _) = create_mock_transaction(7, 7).unwrap();
    let block = Block::new(11, vec![a, b, c], "précédent".to_string(), 6).unwrap();
    let bytes = block.encode().unwrap();
    let back = Block::decode(&bytes).unwrap();
    assert_eq!(back, block);
    assert!(back.is_valid());
    assert_eq!(&bytes[..8], &11u64.to_le_bytes());
    assert_eq!(&bytes[8..24], &block.timestamp().to_le_bytes());
    assert_eq!(&bytes[24..28], &3u32.to_le_bytes());
    assert_eq!(Block::decode(&bytes[..bytes.len() - 1]), codec_error());
    let mut longer = bytes.clone();
    longer.push(0);
    assert_eq!(Block::decode(&longer), codec_error());
    let mut bad_tag = bytes.clone();
    let last = bad_tag.len() - 1;
    bad_tag[last] = 5;
    assert_eq!(Block::decode(&bad_tag), codec_error());
}

#[test]
fn decoded_block_is_checked_by_is_valid_only() {
    let block = Block::from_parts(
        1,
        2,
        vec![],
        3,
        "p".to_string(),
        [4u8; 32],
        500,
        corelib::merkle::Tree::new(),
    );
    let bytes = block.encode().unwrap();
    let mut expected = borsh::to_vec(&(1u64, 2u128, 0u32, 3u64, "p".to_string(), [4u8; 32], 500u32)).unwrap();
    expected.push(0);
    assert_eq!(bytes, expected);
    let back = Block::decode(&bytes).unwrap();
    assert_eq!(back, block);
    assert!(!back.is_valid());
}

#[test]
fn scalars_are_little_endian() {
    let mut out = vec![9u8];
    corelib::bytes::append_u32_le(&mut out, 0x0403_0201);
    corelib::bytes::append_u64_le(&mut out, 0x0807_0605_0403_0201);
    corelib::bytes::append_u128_le(&mut out, u128::MAX - 1);
    corelib::bytes::append_le(&mut out, 0x0102_03, 2);
    let mut expected = vec![9u8, 1, 2, 3, 4, 1, 2, 3, 4, 5, 6, 7, 8, 0xfe];
    expected.extend_from_slice(&[0xff; 15]);
    expected.extend_from_slice(&[3, 2]);
    assert_eq!(out, expected);
    assert_eq!(corelib::bytes::read_le(&out, 1, 4), 0x0403_0201);
    assert_eq!(corelib::bytes::read_le(&out, 5, 8), 0x0807_0605_0403_0201);
    assert_eq!(corelib::bytes::read_le(&out, 13, 16), u128::MAX - 1);
    assert_eq!(corelib::bytes::read_le(&out, 1, 0), 0);
    assert_eq!(corelib::codec::read_u32(&out, 1), Some((0x0403_0201, 5)));
    assert_eq!(corelib::codec::read_u64(&out, 5), Some((0x0807_0605_0403_0201, 13)));
    assert_eq!(corelib::codec::read_u128(&out, 13), Some((u128::MAX - 1, 29)));
    assert_eq!(corelib::codec::read_u32(&out, 29), None);
}
