use corelib::errors::Error;
use corelib::test_utils::{
    assemble_transaction, create_mock_transaction, generate_key_pairs, generate_random_utxos,
    take_part, unlocking_script_for,
};
use corelib::transaction::Transaction;
use corelib::utxo::UTXO;
use ed25519_dalek::{Signature, Signer, SigningKey, VerifyingKey};

#[test]
fn create_and_verify_txn() {
    let (signing_key, _, sender, receiver) = generate_key_pairs().unwrap();

    let value_to_send = 1_000_000_000_u32;
    let value_to_receive = value_to_send - 10;

    let mut transaction = Transaction::new(&signing_key, receiver).unwrap();

    // Receive 999...million
    let (input_utxo, output_utxo) =
        generate_random_utxos(sender, value_to_send, value_to_receive).unwrap();

    transaction.add_outputs(output_utxo, &signing_key).unwrap();
    transaction.add_inputs(input_utxo, &signing_key).unwrap();

    let sender_hash = blake3::hash(&sender);
    let signature = SigningKey::from_bytes(&signing_key)
        .sign(sender_hash.as_bytes())
        .to_bytes();

    let unlocking_script = format!("{} {}", hex::encode(signature), hex::encode(sender));

    let (input, output, fee) = transaction.verify(&unlocking_script).unwrap();

    assert_eq!(fee, 10);
    assert_eq!(input, 1_000_000_000);
    assert_eq!(output, 999_999_990);
}

#[test]
fn fails_on_insufficient_funds() {
    let (signing_key, _, sender, receiver) = generate_key_pairs().unwrap();

    let value_to_send = 1_000_000_000_u32;
    let value_to_receive = value_to_send + 10;

    let mut transaction = Transaction::new(&signing_key, receiver).unwrap();

    let (input_utxo, output_utxo) =
        generate_random_utxos(sender, value_to_send, value_to_receive).unwrap();

    transaction.add_inputs(input_utxo, &signing_key).unwrap();
    transaction.add_outputs(output_utxo, &signing_key).unwrap();

    let sender_hash = blake3::hash(&sender);
    let signature = SigningKey::from_bytes(&signing_key)
        .sign(sender_hash.as_bytes())
        .to_bytes();

    let unlocking_script = format!("{} {}", hex::encode(signature), hex::encode(sender));

    assert!(matches!(
        transaction.verify(&unlocking_script),
        Err(Error::InsufficientFunds)
    ));
}

#[test]
fn fails_on_wrong_sender() {
    let (s, signing_key, sender, receiver) = generate_key_pairs().unwrap();

    let value_to_send = 1_000_000_000_u32;
    let value_to_receive = value_to_send - 10;

    let mut transaction = Transaction::new(&signing_key, receiver).unwrap();

    let (input_utxo, output_utxo) =
        generate_random_utxos(sender, value_to_send, value_to_receive).unwrap();

    transaction.add_inputs(input_utxo, &s).unwrap();
    transaction.add_outputs(output_utxo, &s).unwrap();

    let sender_hash = blake3::hash(&sender);
    let signature = SigningKey::from_bytes(&s)
        .sign(sender_hash.as_bytes())
        .to_bytes();

    let unlocking_script = format!("{} {}", hex::encode(signature), hex::encode(sender));

    assert!(matches!(
        transaction.verify(&unlocking_script),
        Err(Error::UnAuthorized)
    ))
}

fn confirmed(value: u64, index: u32, owner: [u8; 32]) -> UTXO {
    UTXO::new(value, index)
        .unwrap()
        .confirm_at(owner, [1u8; 32], 1, false, 5)
        .unwrap()
}

fn body_bytes(t: &Transaction) -> Vec<u8> {
    let mut body = Vec::new();
    body.extend_from_slice(&t.sender);
    body.extend_from_slice(&t.receiver);
    body.extend_from_slice(&t.timestamp.to_le_bytes());
    for u in &t.inputs {
        body.extend(u.to_bytes());
    }
    for u in &t.outputs {
        body.extend(u.to_bytes());
    }
    body
}

fn assert_sealed(t: &Transaction, seed: &[u8; 32]) {
    assert_eq!(t.hash_id, *blake3::hash(&body_bytes(t)).as_bytes());
    let key = SigningKey::from_bytes(seed);
    assert_eq!(t.signature, key.sign(&t.hash_id).to_bytes());
    assert_ne!(t.signature.to_vec(), seed.to_vec());
    key.verifying_key()
        .verify_strict(&t.hash_id, &Signature::from_bytes(&t.signature))
        .unwrap();
}

#[test]
fn identifier_and_signature_follow_every_change() {
    let seed = [21u8; 32];
    let public = SigningKey::from_bytes(&seed).verifying_key().to_bytes();
    let mut t = Transaction::new_at(&seed, [2u8; 32], 1_700_000_000_000);
    assert_eq!(t.sender, public);
    assert_ne!(t.sender, seed);
    assert_eq!(t.receiver, [2u8; 32]);
    assert_eq!(t.timestamp, 1_700_000_000_000);
    assert!(t.inputs.is_empty() && t.outputs.is_empty());
    assert_eq!(body_bytes(&t).len(), 32 + 32 + 16);
    assert_sealed(&t, &seed);
    let first = t.hash_id;

    t.add_inputs(vec![confirmed(7, 1, public)], &seed).unwrap();
    assert_sealed(&t, &seed);
    assert_ne!(t.hash_id, first);
    let second = t.hash_id;

    t.add_outputs(vec![UTXO::new(3, 1).unwrap(), UTXO::new(2, 2).unwrap()], &seed).unwrap();
    assert_sealed(&t, &seed);
    assert_ne!(t.hash_id, second);
    assert_eq!(t.inputs.len(), 1);
    assert_eq!(t.outputs.len(), 2);

    t.add_inputs(vec![confirmed(1, 2, public)], &seed).unwrap();
    assert_eq!(t.inputs.len(), 2);
    assert_eq!(t.inputs[1].value(), 1);
    assert_sealed(&t, &seed);
}

#[test]
fn new_stamps_the_clock() {
    let t = Transaction::new(&[3u8; 32], [4u8; 32]).unwrap();
    let now = std::time::SystemTime::now()
        .duration_since(std::time::UNIX_EPOCH)
        .unwrap()
        .as_millis();
    assert!(t.timestamp <= now && now - t.timestamp < 60_000);
    assert_sealed(&t, &[3u8; 32]);
}

#[test]
fn empty_additions_are_refused_and_change_nothing() {
    let seed = [21u8; 32];
    let mut t = Transaction::new_at(&seed, [2u8; 32], 5);
    let before = t.clone();
    assert_eq!(t.add_inputs(vec![], &seed), Err(Error::InsufficientFunds));
    assert_eq!(t, before);
    assert_eq!(t.add_outputs(vec![], &seed), Err(Error::InsufficientFunds));
    assert_eq!(t, before);
    assert_eq!(t.add_inputs(vec![], &seed), Err(Error::InsufficientFunds));
    assert_eq!(t, before);
}

#[test]
fn additions_of_the_wrong_kind_are_refused() {
    let seed = [21u8; 32];
    let mut t = Transaction::new_at(&seed, [2u8; 32], 5);
    let before = t.clone();
    assert_eq!(
        t.add_inputs(vec![confirmed(1, 1, [0u8; 32]), UTXO::new(1, 1).unwrap()], &seed),
        Err(Error::PendingUTXO)
    );
    assert_eq!(t, before);
    assert_eq!(
        t.add_outputs(vec![UTXO::new(1, 1).unwrap(), confirmed(1, 1, [0u8; 32])], &seed),
        Err(Error::ConfirmedUTXO)
    );
    assert_eq!(t, before);
}

fn spend(seed: &[u8; 32], inputs: Vec<UTXO>, outputs: Vec<UTXO>) -> Transaction {
    let mut t = Transaction::new_at(seed, [2u8; 32], 5);
    t.inputs = inputs;
    t.outputs = outputs;
    t.calculate_hash(seed);
    t
}

#[test]
fn verify_checks_in_order() {
    let seed = [21u8; 32];
    let public = SigningKey::from_bytes(&seed).verifying_key().to_bytes();
    let script = unlocking_script_for(&seed);
    let good = spend(&seed, vec![confirmed(10, 1, public)], vec![UTXO::new(4, 1).unwrap()]);
    assert_eq!(good.verify(&script), Ok((10, 4, 6)));

    let exact = spend(&seed, vec![confirmed(10, 1, public)], vec![UTXO::new(10, 1).unwrap()]);
    assert_eq!(exact.verify(&script), Ok((10, 10, 0)));

    let none_in = spend(&seed, vec![], vec![UTXO::new(4, 1).unwrap()]);
    assert_eq!(none_in.verify(&script), Err(Error::InsufficientFunds));
    let none_out = spend(&seed, vec![confirmed(10, 1, public)], vec![]);
    assert_eq!(none_out.verify(&script), Err(Error::InsufficientFunds));

    let pending_in = spend(&seed, vec![UTXO::new(10, 1).unwrap()], vec![confirmed(1, 1, public)]);
    assert_eq!(pending_in.verify(&script), Err(Error::PendingUTXO));
    let confirmed_out = spend(&seed, vec![confirmed(10, 1, public)], vec![confirmed(1, 1, public)]);
    assert_eq!(confirmed_out.verify(&script), Err(Error::ConfirmedUTXO));

    let too_much = spend(&seed, vec![confirmed(10, 1, public)], vec![UTXO::new(11, 1).unwrap()]);
    assert_eq!(too_much.verify("not even hex"), Err(Error::InsufficientFunds));

    assert_eq!(good.verify(""), Err(Error::InvalidUnlockingScript));
    assert_eq!(good.verify("zz zz"), Err(Error::HexcodeError));

    let other_owner = spend(&seed, vec![confirmed(10, 1, [9u8; 32])], vec![UTXO::new(4, 1).unwrap()]);
    assert_eq!(other_owner.verify(&script), Err(Error::InvalidUnlockingScript));

    let mut forged = good.clone();
    forged.signature[0] ^= 1;
    assert_eq!(forged.verify(&script), Err(Error::UnAuthorized));
    let mut altered = good.clone();
    altered.hash_id[0] ^= 1;
    assert_eq!(altered.verify(&script), Err(Error::UnAuthorized));
}

#[test]
fn verify_refuses_a_sender_that_is_no_key() {
    let mut bad = [0u8; 32];
    let mut found = false;
    for b in 0..=255u8 {
        bad[0] = b;
        if VerifyingKey::from_bytes(&bad).is_err() {
            found = true;
            break;
        }
    }
    assert!(found);
    let seed = [21u8; 32];
    let public = SigningKey::from_bytes(&seed).verifying_key().to_bytes();
    let mut t = spend(&seed, vec![confirmed(10, 1, public)], vec![UTXO::new(4, 1).unwrap()]);
    t.sender = bad;
    assert_eq!(t.verify(&unlocking_script_for(&seed)), Err(Error::Signature));
    let empty = Transaction { inputs: vec![], ..t };
    assert_eq!(empty.verify(""), Err(Error::Signature));
}

#[test]
fn totals_beyond_u64() {
    let seed = [21u8; 32];
    let public = SigningKey::from_bytes(&seed).verifying_key().to_bytes();
    let script = unlocking_script_for(&seed);
    let big_out = spend(
        &seed,
        vec![confirmed(u64::MAX, 1, public)],
        vec![UTXO::new(u64::MAX, 1).unwrap(), UTXO::new(1, 2).unwrap()],
    );
    assert_eq!(big_out.verify(&script), Err(Error::InsufficientFunds));
    let big_in = spend(
        &seed,
        vec![confirmed(u64::MAX, 1, public), confirmed(1, 2, public)],
        vec![UTXO::new(5, 1).unwrap()],
    );
    assert_eq!(big_in.verify(&script), Err(Error::InvalidUTXOValue));
    let at_limit = spend(
        &seed,
        vec![confirmed(u64::MAX - 1, 1, public), confirmed(1, 2, public)],
        vec![UTXO::new(5, 1).unwrap()],
    );
    assert_eq!(at_limit.verify(&script), Ok((u64::MAX, 5, u64::MAX - 5)));
}

#[test]
fn random_outputs_add_up() {
    let (inputs, outputs) = generate_random_utxos([7u8; 32], 12_345, 999).unwrap();
    assert!(!inputs.is_empty() && !outputs.is_empty());
    assert!(inputs.iter().all(|u| u.is_confirmed() && u.value() > 0));
    assert!(outputs.iter().all(|u| !u.is_confirmed() && u.value() > 0));
    assert_eq!(inputs.iter().map(|u| u.value()).sum::<u64>(), 12_345);
    assert_eq!(outputs.iter().map(|u| u.value()).sum::<u64>(), 999);
    let (none_in, none_out) = generate_random_utxos([7u8; 32], 0, 0).unwrap();
    assert!(none_in.is_empty() && none_out.is_empty());
}

#[test]
fn key_pairs_are_fresh() {
    let (a, b, a_pub, b_pub) = generate_key_pairs().unwrap();
    assert_ne!(a, b);
    assert_ne!(a_pub, b_pub);
    assert_eq!(a_pub, SigningKey::from_bytes(&a).verifying_key().to_bytes());
    assert_eq!(b_pub, SigningKey::from_bytes(&b).verifying_key().to_bytes());
    let (c, _, _, _) = generate_key_pairs().unwrap();
    assert_ne!(a, c);
}

#[test]
fn mock_transaction_verifies() {
    let (txn, script) = create_mock_transaction(1000, 996).unwrap();
    assert_eq!(txn.verify(&script), Ok((1000, 996, 4)));
    assert!(matches!(create_mock_transaction(0, 5), Err(Error::InsufficientFunds)));
    assert!(matches!(create_mock_transaction(5, 0), Err(Error::InsufficientFunds)));
}

#[test]
fn unlocking_script_is_signature_and_key() {
    let seed = [33u8; 32];
    let key = SigningKey::from_bytes(&seed);
    let public = key.verifying_key().to_bytes();
    let signature = key.sign(blake3::hash(&public).as_bytes()).to_bytes();
    assert_eq!(
        unlocking_script_for(&seed),
        format!("{} {}", hex::encode(signature), hex::encode(public))
    );
}

#[test]
fn part_is_the_draw_or_the_whole() {
    assert_eq!(take_part(0, 700), 700);
    assert_eq!(take_part(1, 700), 1);
    assert_eq!(take_part(700, 700), 700);
    assert_eq!(take_part(42, 742), 42);
}

#[test]
fn assembling_checks_inputs_then_outputs() {
    let seed = [21u8; 32];
    let public = SigningKey::from_bytes(&seed).verifying_key().to_bytes();
    let input = || confirmed(10, 1, public);
    let output = || UTXO::new(4, 1).unwrap();
    let assembled = |inputs: Vec<UTXO>, outputs: Vec<UTXO>| {
        assemble_transaction(&seed, [2u8; 32], 77, inputs, outputs)
    };
    assert_eq!(assembled(vec![output()], vec![]).unwrap_err(), Error::PendingUTXO);
    assert_eq!(assembled(vec![], vec![input()]).unwrap_err(), Error::InsufficientFunds);
    assert_eq!(assembled(vec![input()], vec![input()]).unwrap_err(), Error::ConfirmedUTXO);
    assert_eq!(assembled(vec![input()], vec![]).unwrap_err(), Error::InsufficientFunds);
    let (t, script) = assembled(vec![input(), input()], vec![output()]).unwrap();
    assert_eq!(t.sender, public);
    assert_eq!(t.receiver, [2u8; 32]);
    assert_eq!(t.timestamp, 77);
    assert_eq!(t.inputs, vec![input(), input()]);
    assert_eq!(t.outputs, vec![output()]);
    assert_sealed(&t, &seed);
    assert_eq!(script, unlocking_script_for(&seed));
    assert_eq!(t.verify(&script), Ok((20, 4, 16)));
}

#[test]
fn mock_transaction_is_between_two_keys() {
    let (t, _) = create_mock_transaction(500, 400).unwrap();
    assert_ne!(t.sender, t.receiver);
    let now = std::time::SystemTime::now()
        .duration_since(std::time::UNIX_EPOCH)
        .unwrap()
        .as_millis();
    assert!(t.timestamp <= now && now - t.timestamp < 60_000);
    for (i, u) in t.outputs.iter().enumerate() {
        assert_eq!(*u, UTXO::Pending { value: u.value(), index: i as u32 + 1 });
    }
}
