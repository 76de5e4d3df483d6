//! Helpers that make keys, outputs and transactions of random shape for
//! trying the library out.

use vstd::prelude::*;
use vstd::string::*;
use crate::errors::Error;
use crate::clock::now_millis;
use crate::crypto::{ed25519_public_key, hash_bytes, public_key_of, sign_message};
use crate::hexcode::hex_encode;
use crate::transaction::{Transaction, any_confirmed, any_pending, total_value, utxo_views};
use crate::spend::witness_for;
use crate::utxo::{UTXO, UtxoView, lock_script};

verus! {

/// Calls `ed25519_dalek::SigningKey::generate` with the operating system's
/// random source and returns the secret of the new key. Nothing is promised
/// of the secret.
#[verifier::external_body]
fn random_seed() -> (seed: [u8; 32]) {
    ed25519_dalek::SigningKey::generate(&mut rand::rngs::OsRng).to_bytes()
}

/// Calls `rand::Rng::gen_range` on the thread's generator with the range
/// from `low` to `high`, both included. The range must not be empty; the
/// number drawn lies in it.
#[verifier::external_body]
fn random_between(low: u32, high: u32) -> (n: u32)
    requires
        low <= high,
    ensures
        low <= n <= high,
{
    rand::Rng::gen_range(&mut rand::thread_rng(), low..=high)
}

/// Two fresh keys: the secrets of a sender and of a receiver, and the
/// public keys that belong to them. Should the two public keys be equal,
/// the result is `OwnerMismatch`.
#[allow(unused)]
pub fn generate_key_pairs() -> (r: Result<([u8; 32], [u8; 32], [u8; 32], [u8; 32]), Error>)
    ensures
        r is Err ==> r == Err::<([u8; 32], [u8; 32], [u8; 32], [u8; 32]), Error>(
            Error::OwnerMismatch,
        ),
        r is Ok ==> {
            let (signing_key, receiver_key, sender, receiver) = r->Ok_0;
            &&& sender == ed25519_public_key(signing_key@)
            &&& receiver == ed25519_public_key(receiver_key@)
            &&& sender != receiver
        },
{
    let signing_key = random_seed();
    let receiver_signing_key = random_seed();
    let sender = public_key_of(&signing_key);
    let receiver = public_key_of(&receiver_signing_key);
    if crate::bytes::same_digest(&sender, &receiver) {
        return Err(Error::OwnerMismatch);
    }
    Ok((signing_key, receiver_signing_key, sender, receiver))
}

/// The part of `remaining` that an output takes when `drawn` was drawn:
/// the number drawn, or all of `remaining` when zero was drawn.
pub open spec fn part_taken(drawn: u32, remaining: u32) -> u32 {
    if drawn == 0 {
        remaining
    } else {
        drawn
    }
}

/// The part of `remaining` that an output takes when `drawn` was drawn.
pub fn take_part(drawn: u32, remaining: u32) -> (part: u32)
    ensures
        part == part_taken(drawn, remaining),
{
    if drawn == 0 {
        remaining
    } else {
        drawn
    }
}

/// The part of `remaining` that the next output takes: a number drawn
/// between the last two decimal digits of `remaining` and `remaining`, or
/// all of `remaining` when zero is drawn. Whatever is drawn, the part is
/// at least one, no less than the last two decimal digits of `remaining`,
/// and no more than `remaining`.
fn draw_part(remaining: u32) -> (part: u32)
    requires
        remaining > 0,
    ensures
        exists|drawn: u32|
            remaining % 100 <= drawn <= remaining && part == #[trigger] part_taken(
                drawn,
                remaining,
            ),
        remaining % 100 <= part <= remaining,
        1 <= part,
{
    let drawn = random_between(remaining % 100, remaining);
    let part = take_part(drawn, remaining);
    assert(part == part_taken(drawn, remaining));
    part
}

/// The sum of a list grows by the value of an output put at its end.
proof fn lemma_total_push(items: Seq<UtxoView>, last: UtxoView)
    ensures
        total_value(items.push(last)) == total_value(items) + last.value(),
{
    assert(items.push(last).drop_last() =~= items);
}

/// Whether `u` is a confirmed output at `index`, locked to `owner`, in a
/// block of height 1, and not earned by mining.
pub open spec fn spendable_by(u: UtxoView, owner: [u8; 32], index: int) -> bool {
    &&& u is Confirmed
    &&& u->Confirmed_script_pubkey == lock_script(owner)
    &&& u->Confirmed_index == index
    &&& u->Confirmed_block_height == 1
    &&& !u->Confirmed_is_coinbase
}

/// Confirmed inputs worth `input_value` together and pending outputs
/// worth `output_value` together, each split at random into outputs of a
/// value above zero. The inputs belong to `sender`. A clock that cannot be
/// read gives `TimeError`.
#[allow(unused)]
pub fn generate_random_utxos(sender: [u8; 32], input_value: u32, output_value: u32) -> (r: Result<
    (Vec<UTXO>, Vec<UTXO>),
    Error,
>)
    ensures
        r is Err ==> r == Err::<(Vec<UTXO>, Vec<UTXO>), Error>(Error::TimeError),
        r is Ok ==> {
            let inputs = utxo_views(r->Ok_0.0@);
            let outputs = utxo_views(r->Ok_0.1@);
            &&& !any_pending(inputs)
            &&& !any_confirmed(outputs)
            &&& total_value(inputs) == input_value
            &&& total_value(outputs) == output_value
            &&& forall|i: int|
                0 <= i < inputs.len() ==> (#[trigger] inputs[i]).well_formed() && spendable_by(
                    inputs[i],
                    sender,
                    i + 1,
                )
            &&& forall|i: int|
                0 <= i < outputs.len() ==> (#[trigger] outputs[i]).well_formed()
                    && outputs[i]->Pending_index == i + 1
            &&& (input_value > 0 <==> inputs.len() > 0)
            &&& (output_value > 0 <==> outputs.len() > 0)
        },
{
    let mut inputs: Vec<UTXO> = Vec::new();
    let mut remaining = input_value;
    let mut i: u32 = 0;
    while remaining > 0
        invariant
            i + remaining <= input_value,
            total_value(utxo_views(inputs@)) + remaining == input_value,
            forall|k: int|
                0 <= k < inputs@.len() ==> (#[trigger] utxo_views(inputs@)[k]) is Confirmed
                    && utxo_views(inputs@)[k].well_formed() && spendable_by(
                    utxo_views(inputs@)[k],
                    sender,
                    k + 1,
                ),
            i == inputs@.len(),
            input_value > 0 && remaining < input_value ==> inputs@.len() > 0,
            input_value == 0 ==> inputs@.len() == 0,
        decreases remaining,
    {
        let part = draw_part(remaining);
        i += 1;
        remaining -= part;
        let new_utxo = match UTXO::new(part as u64, i) {
            Ok(utxo) => utxo,
            Err(_) => { return Err(Error::TimeError); },
        };
        let confirmed_utxo = match new_utxo.confirm_utxo(sender, [1u8; 32], 1, false) {
            Ok(utxo) => utxo,
            Err(_) => { return Err(Error::TimeError); },
        };
        let ghost before = utxo_views(inputs@);
        inputs.push(confirmed_utxo);
        proof {
            assert(utxo_views(inputs@) =~= before.push(confirmed_utxo@));
            lemma_total_push(before, confirmed_utxo@);
        }
    }
    let mut outputs: Vec<UTXO> = Vec::new();
    let mut remaining = output_value;
    let mut o: u32 = 0;
    while remaining > 0
        invariant
            o + remaining <= output_value,
            total_value(utxo_views(outputs@)) + remaining == output_value,
            forall|k: int|
                0 <= k < outputs@.len() ==> (#[trigger] utxo_views(outputs@)[k]) is Pending
                    && utxo_views(outputs@)[k].well_formed() && utxo_views(
                    outputs@,
                )[k]->Pending_index == k + 1,
            o == outputs@.len(),
            output_value > 0 && remaining < output_value ==> outputs@.len() > 0,
            output_value == 0 ==> outputs@.len() == 0,
        decreases remaining,
    {
        let part = draw_part(remaining);
        o += 1;
        remaining -= part;
        let new_utxo = match UTXO::new(part as u64, o) {
            Ok(utxo) => utxo,
            Err(_) => { return Err(Error::TimeError); },
        };
        let ghost before = utxo_views(outputs@);
        outputs.push(new_utxo);
        proof {
            assert(utxo_views(outputs@) =~= before.push(new_utxo@));
            lemma_total_push(before, new_utxo@);
        }
    }
    Ok((inputs, outputs))
}

/// The witness that unlocks the outputs of the holder of `signing_key`:
/// the signature of the digest of the public key, and the public key, both
/// in lower-case hexadecimal, with a space between them.
pub fn unlocking_script_for(signing_key: &[u8; 32]) -> (script: String)
    ensures
        script@ == witness_for(*signing_key),
{
    let sender = public_key_of(signing_key);
    let sender_hash = hash_bytes(&sender);
    let signature = sign_message(signing_key, &sender_hash);
    let mut script = hex_encode(&signature);
    script.append(" ");
    let key_text = hex_encode(&sender);
    script.append(key_text.as_str());
    script
}

/// What assembling a transaction from `inputs` and `outputs` gives: a
/// pending input is refused, then an empty list of inputs, then a
/// confirmed output, then an empty list of outputs.
pub open spec fn assembly(inputs: Seq<UtxoView>, outputs: Seq<UtxoView>) -> Result<(), Error> {
    if any_pending(inputs) {
        Err(Error::PendingUTXO)
    } else if inputs.len() == 0 {
        Err(Error::InsufficientFunds)
    } else if any_confirmed(outputs) {
        Err(Error::ConfirmedUTXO)
    } else if outputs.len() == 0 {
        Err(Error::InsufficientFunds)
    } else {
        Ok(())
    }
}

/// The transaction from the holder of `signing_key` to `receiver` at
/// `timestamp` that spends `inputs` and creates `outputs`, sealed, and the
/// witness of the key. The inputs must be confirmed and the outputs
/// pending, at least one of each; otherwise the error of `assembly` is
/// returned.
pub fn assemble_transaction(
    signing_key: &[u8; 32],
    receiver: [u8; 32],
    timestamp: u128,
    inputs: Vec<UTXO>,
    outputs: Vec<UTXO>,
) -> (r: Result<(Transaction, String), Error>)
    ensures
        match assembly(utxo_views(inputs@), utxo_views(outputs@)) {
            Err(e) => r == Err::<(Transaction, String), Error>(e),
            Ok(_) => r is Ok && ({
                let t = r->Ok_0.0@;
                &&& t.sender == ed25519_public_key(signing_key@)
                &&& t.receiver == receiver
                &&& t.timestamp == timestamp
                &&& t.inputs == utxo_views(inputs@)
                &&& t.outputs == utxo_views(outputs@)
                &&& t.sealed_by(*signing_key)
                &&& t.well_formed()
                &&& r->Ok_0.1@ == witness_for(*signing_key)
            }),
        },
{
    let mut transaction = Transaction::new_at(signing_key, receiver, timestamp);
    match transaction.add_inputs(inputs, signing_key) {
        Ok(_) => {},
        Err(e) => { return Err(e); },
    }
    match transaction.add_outputs(outputs, signing_key) {
        Ok(_) => {},
        Err(e) => { return Err(e); },
    }
    proof {
        assert(transaction@.inputs =~= utxo_views(inputs@));
        assert(transaction@.outputs =~= utxo_views(outputs@));
    }
    Ok((transaction, unlocking_script_for(signing_key)))
}

/// A sealed transaction between two fresh keys that spends inputs worth
/// `value_to_send` and creates outputs worth `value_to_receive`, and the
/// witness that unlocks its inputs.
///
/// Two equal keys give `OwnerMismatch` and a clock that cannot be read
/// gives `TimeError`, whatever the values are. Otherwise a value of zero
/// leaves a list empty, which is `InsufficientFunds`, and any other values
/// give the transaction.
pub fn create_mock_transaction(value_to_send: u32, value_to_receive: u32) -> (r: Result<
    (Transaction, String),
    Error,
>)
    ensures
        r is Err ==> r == Err::<(Transaction, String), Error>(Error::OwnerMismatch) || r == Err::<
            (Transaction, String),
            Error,
        >(Error::TimeError) || r == Err::<(Transaction, String), Error>(Error::InsufficientFunds),
        r == Err::<(Transaction, String), Error>(Error::InsufficientFunds) ==> value_to_send == 0
            || value_to_receive == 0,
        value_to_send == 0 || value_to_receive == 0 ==> r is Err,
        r is Ok ==> {
            let t = r->Ok_0.0@;
            &&& t.well_formed()
            &&& total_value(t.inputs) == value_to_send
            &&& total_value(t.outputs) == value_to_receive
            &&& t.sender != t.receiver
            &&& forall|i: int|
                0 <= i < t.inputs.len() ==> spendable_by(#[trigger] t.inputs[i], t.sender, i + 1)
            &&& forall|i: int|
                0 <= i < t.outputs.len() ==> (#[trigger] t.outputs[i]).well_formed()
                    && t.outputs[i]->Pending_index == i + 1
            &&& exists|seed: [u8; 32]|
                t.sender == ed25519_public_key(seed@) && #[trigger] t.sealed_by(seed)
                    && r->Ok_0.1@ == witness_for(seed)
        },
{
    let (signing_key, _, sender, receiver) = match generate_key_pairs() {
        Ok(keys) => keys,
        Err(e) => { return Err(e); },
    };
    let timestamp = match now_millis() {
        Ok(millis) => millis,
        Err(e) => { return Err(e); },
    };
    let (input_utxo, output_utxo) = match generate_random_utxos(
        sender,
        value_to_send,
        value_to_receive,
    ) {
        Ok(pair) => pair,
        Err(e) => { return Err(e); },
    };
    assemble_transaction(&signing_key, receiver, timestamp, input_utxo, output_utxo)
}

} // verus!
