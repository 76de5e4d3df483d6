use corelib::errors::Error;
use corelib::utxo::UTXO;
use ed25519_dalek::{Signer, SigningKey};
use rand::rngs::OsRng;

#[test]
fn test_valid_utxo_lifecycle() {
    let mut csprng = OsRng;
    let signing_key = SigningKey::generate(&mut csprng);

    let owner = signing_key.verifying_key().to_bytes();
    let txn_hash = [1u8; 32];
    let pending_utxo = UTXO::new(1000, 1).expect("Failed to create UTXO");

    let confirmed_utxo = pending_utxo
        .confirm_utxo(owner, txn_hash, 100, false)
        .expect("Failed to confirm UTXO");

    if let UTXO::Confirmed {
        value,
        block_height,
        is_coinbase,
        ..
    } = confirmed_utxo
    {
        assert_eq!(value, 1000);
        assert_eq!(block_height, 100);
        assert!(!is_coinbase);

        let owner_hash = blake3::hash(&owner);

        let signature = signing_key.sign(owner_hash.as_bytes()).to_bytes();

        let unlocking_script = format!("{} {}", hex::encode(signature), hex::encode(owner));

        confirmed_utxo.unlock(&unlocking_script).unwrap();
    } else {
        panic!("Expected a Confirmed UTXO");
    }
}

#[test]
fn zero_value_is_refused() {
    assert_eq!(UTXO::new(0, 7), Err(Error::InvalidUTXOValue));
    assert_eq!(UTXO::new(1, 7), Ok(UTXO::Pending { value: 1, index: 7 }));
}

#[test]
fn confirmed_cannot_be_confirmed_again() {
    let confirmed = UTXO::new(5, 2).unwrap().confirm_at([3u8; 32], [4u8; 32], 9, true, 77).unwrap();
    assert_eq!(
        confirmed.clone().confirm_utxo([3u8; 32], [4u8; 32], 9, true),
        Err(Error::ConfirmedUTXO)
    );
    assert_eq!(
        confirmed.confirm_at([3u8; 32], [4u8; 32], 9, true, 1),
        Err(Error::ConfirmedUTXO)
    );
}

#[test]
fn confirmed_id_is_digest_of_hash_and_index() {
    let txn_hash = [9u8; 32];
    let owner = [8u8; 32];
    let confirmed = UTXO::new(1234, 0x01020304).unwrap().confirm_at(owner, txn_hash, 5, true, 42).unwrap();
    let mut preimage = txn_hash.to_vec();
    preimage.extend_from_slice(&0x01020304u32.to_le_bytes());
    let expected_id = *blake3::hash(&preimage).as_bytes();
    assert_ne!(expected_id, txn_hash);
    let expected_script = format!("{} OP_CHECKSIG", blake3::hash(&owner).to_hex());
    assert_eq!(
        confirmed,
        UTXO::Confirmed {
            id: expected_id,
            script_pubkey: expected_script,
            value: 1234,
            txn_hash,
            index: 0x01020304,
            created_at: 42,
            block_height: 5,
            is_coinbase: true,
        }
    );
}

#[test]
fn confirm_stamps_the_clock() {
    let confirmed = UTXO::new(1, 1).unwrap().confirm_utxo([0u8; 32], [0u8; 32], 1, false).unwrap();
    let now = std::time::SystemTime::now()
        .duration_since(std::time::UNIX_EPOCH)
        .unwrap()
        .as_millis();
    if let UTXO::Confirmed { created_at, .. } = confirmed {
        let low = (now % (1u128 << 32)) as u32;
        assert!(low.wrapping_sub(created_at) < 60_000);
    } else {
        panic!("Expected a Confirmed UTXO");
    }
}

#[test]
fn hashing_bytes_of_pending() {
    let pending = UTXO::new(0x0102030405060708, 0x0a0b0c0d).unwrap();
    assert_eq!(
        pending.to_bytes(),
        vec![8, 7, 6, 5, 4, 3, 2, 1, 0x0d, 0x0c, 0x0b, 0x0a]
    );
}

#[test]
fn hashing_bytes_of_confirmed() {
    let confirmed = UTXO::Confirmed {
        id: [7u8; 32],
        script_pubkey: "ab OP_CHECKSIG".to_string(),
        value: 1,
        txn_hash: [9u8; 32],
        index: 2,
        created_at: 3,
        block_height: 4,
        is_coinbase: true,
    };
    let mut expected = vec![7u8; 32];
    expected.extend_from_slice(b"ab OP_CHECKSIG");
    expected.extend_from_slice(&1u64.to_le_bytes());
    expected.extend_from_slice(&2u32.to_le_bytes());
    expected.extend_from_slice(&3u32.to_le_bytes());
    expected.extend_from_slice(&4u32.to_le_bytes());
    assert_eq!(confirmed.to_bytes(), expected);
    assert_eq!(confirmed.to_bytes().len(), 32 + 14 + 8 + 4 + 4 + 4);
}

#[test]
fn pending_cannot_be_unlocked() {
    assert_eq!(UTXO::new(1, 1).unwrap().unlock("anything"), Err(Error::PendingUTXO));
}

fn locked_to(key: &SigningKey) -> UTXO {
    UTXO::new(10, 1)
        .unwrap()
        .confirm_at(key.verifying_key().to_bytes(), [1u8; 32], 1, false, 0)
        .unwrap()
}

#[test]
fn unlock_rejects_short_stack() {
    let key = SigningKey::from_bytes(&[5u8; 32]);
    let utxo = locked_to(&key);
    assert_eq!(utxo.unlock(""), Err(Error::InvalidUnlockingScript));
    assert_eq!(utxo.unlock("aa"), Err(Error::InvalidUnlockingScript));
}

#[test]
fn unlock_rejects_bad_hex() {
    let key = SigningKey::from_bytes(&[5u8; 32]);
    let utxo = locked_to(&key);
    assert_eq!(utxo.unlock("zz aa"), Err(Error::HexcodeError));
    assert_eq!(utxo.unlock("aa abc"), Err(Error::HexcodeError));
}

#[test]
fn unlock_rejects_other_key() {
    let key = SigningKey::from_bytes(&[5u8; 32]);
    let other = SigningKey::from_bytes(&[6u8; 32]);
    let utxo = locked_to(&key);
    let other_pub = other.verifying_key().to_bytes();
    let digest = blake3::hash(&other_pub);
    let signature = other.sign(digest.as_bytes()).to_bytes();
    let script = format!("{} {}", hex::encode(signature), hex::encode(other_pub));
    assert_eq!(utxo.unlock(&script), Err(Error::InvalidUnlockingScript));
}

#[test]
fn unlock_rejects_wrong_signature() {
    let key = SigningKey::from_bytes(&[5u8; 32]);
    let other = SigningKey::from_bytes(&[6u8; 32]);
    let utxo = locked_to(&key);
    let owner = key.verifying_key().to_bytes();
    let digest = blake3::hash(&owner);
    let signature = other.sign(digest.as_bytes()).to_bytes();
    let script = format!("{} {}", hex::encode(signature), hex::encode(owner));
    assert_eq!(utxo.unlock(&script), Err(Error::InvalidUnlockingScript));
    let short = format!("{} {}", hex::encode(&signature[..63]), hex::encode(owner));
    assert_eq!(utxo.unlock(&short), Err(Error::InvalidUnlockingScript));
}

#[test]
fn unlock_accepts_upper_case_and_any_white_space() {
    let key = SigningKey::from_bytes(&[5u8; 32]);
    let utxo = locked_to(&key);
    let owner = key.verifying_key().to_bytes();
    let digest = blake3::hash(&owner);
    let signature = key.sign(digest.as_bytes()).to_bytes();
    let script = format!(
        "\t{}\u{2003}\n{} ",
        hex::encode_upper(signature),
        hex::encode_upper(owner)
    );
    assert_eq!(utxo.unlock(&script), Ok(()));
}

#[test]
fn unlock_rejects_extra_tokens() {
    let key = SigningKey::from_bytes(&[5u8; 32]);
    let utxo = locked_to(&key);
    let owner = key.verifying_key().to_bytes();
    let digest = blake3::hash(&owner);
    let signature = key.sign(digest.as_bytes()).to_bytes();
    let script = format!("extra {} {}", hex::encode(signature), hex::encode(owner));
    assert_eq!(utxo.unlock(&script), Err(Error::InvalidUnlockingScript));
}
