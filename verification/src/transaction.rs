//! Transactions: a signed collection of confirmed inputs and pending
//! outputs, identified by the digest of its body.

use vstd::prelude::*;
use crate::bytes::{append_bytes, append_u128_le, u128_le};
use crate::errors::Error;
use crate::crypto::{
    blake3_digest, ed25519_key_decodes, ed25519_public_key, ed25519_signature,
    ed25519_strict_accepts, hash_bytes, key_decodes, public_key_of, sign_message, verify_strict,
};
use crate::clock::now_millis;
use crate::utxo::{UTXO, UtxoView};

verus! {

/// A transfer from a sender to a receiver: the outputs that it spends and
/// the outputs that it creates, under an identifier and a signature.
#[derive(Debug, Clone, PartialEq, Eq)]
pub struct Transaction {
    pub hash_id: [u8; 32],
    pub sender: [u8; 32],
    pub receiver: [u8; 32],
    /// Milliseconds since the Unix epoch.
    pub timestamp: u128,
    pub signature: [u8; 64],
    /// The outputs that the transaction spends. Newly minted coins have none.
    pub inputs: Vec<UTXO>,
    /// The outputs that the transaction creates.
    pub outputs: Vec<UTXO>,
}

/// The mathematical value of a transaction.
pub struct TransactionView {
    pub hash_id: [u8; 32],
    pub sender: [u8; 32],
    pub receiver: [u8; 32],
    pub timestamp: u128,
    pub signature: [u8; 64],
    pub inputs: Seq<UtxoView>,
    pub outputs: Seq<UtxoView>,
}

/// The values of a sequence of outputs.
pub open spec fn utxo_views(items: Seq<UTXO>) -> Seq<UtxoView> {
    Seq::new(items.len(), |i: int| items[i]@)
}

/// The hashing bytes of the outputs, one after the other.
pub open spec fn concat_bytes(items: Seq<UtxoView>) -> Seq<u8>
    decreases items.len(),
{
    if items.len() == 0 {
        Seq::empty()
    } else {
        concat_bytes(items.drop_last()) + items.last().bytes()
    }
}

/// The sum of the values of the outputs.
pub open spec fn total_value(items: Seq<UtxoView>) -> int
    decreases items.len(),
{
    if items.len() == 0 {
        0
    } else {
        total_value(items.drop_last()) + items.last().value()
    }
}

/// Whether one of the outputs is pending.
pub open spec fn any_pending(items: Seq<UtxoView>) -> bool {
    exists|i: int| 0 <= i < items.len() && (#[trigger] items[i]) is Pending
}

/// Whether one of the outputs is confirmed.
pub open spec fn any_confirmed(items: Seq<UtxoView>) -> bool {
    exists|i: int| 0 <= i < items.len() && (#[trigger] items[i]) is Confirmed
}

/// The error of the first output that the witness does not unlock, if any.
pub open spec fn first_unlock_failure(items: Seq<UtxoView>, unlocking: Seq<char>) -> Option<Error>
    decreases items.len(),
{
    if items.len() == 0 {
        None
    } else {
        match items[0].unlock_result(unlocking) {
            Err(e) => Some(e),
            Ok(_) => first_unlock_failure(items.drop_first(), unlocking),
        }
    }
}

/// What verification returns once the totals and the results of the outside
/// checks are known: the input total, the output total and the fee.
pub open spec fn settlement(
    input_total: int,
    output_total: int,
    unlock_failure: Option<Error>,
    signature_accepted: bool,
) -> Result<(u64, u64, u64), Error> {
    if output_total > input_total {
        Err(Error::InsufficientFunds)
    } else if input_total > u64::MAX {
        Err(Error::InvalidUTXOValue)
    } else if unlock_failure is Some {
        Err(unlock_failure->Some_0)
    } else if !signature_accepted {
        Err(Error::UnAuthorized)
    } else {
        Ok((input_total as u64, output_total as u64, (input_total - output_total) as u64))
    }
}

impl TransactionView {
    /// The bytes that the identifier is the digest of: sender, receiver,
    /// the timestamp in little-endian order, then the hashing bytes of every
    /// input and of every output.
    pub open spec fn body_bytes(self) -> Seq<u8> {
        self.sender@ + self.receiver@ + u128_le(self.timestamp) + concat_bytes(
            self.inputs,
        ) + concat_bytes(self.outputs)
    }

    /// The identifier is the digest of the body.
    pub open spec fn hash_consistent(self) -> bool {
        self.hash_id == blake3_digest(self.body_bytes())
    }

    /// The identifier is the digest of the body, and the signature is the
    /// one that the key `seed` gives of the identifier.
    pub open spec fn sealed_by(self, seed: [u8; 32]) -> bool {
        &&& self.hash_consistent()
        &&& self.signature == ed25519_signature(seed@, self.hash_id@)
    }

    /// Every input is confirmed and every output is pending.
    pub open spec fn well_formed(self) -> bool {
        &&& !any_pending(self.inputs)
        &&& !any_confirmed(self.outputs)
    }

    /// The result of verifying the transaction with the witness `unlocking`.
    pub open spec fn verify_result(self, unlocking: Seq<char>) -> Result<(u64, u64, u64), Error> {
        if !ed25519_key_decodes(self.sender@) {
            Err(Error::Signature)
        } else if self.inputs.len() == 0 || self.outputs.len() == 0 {
            Err(Error::InsufficientFunds)
        } else if any_pending(self.inputs) {
            Err(Error::PendingUTXO)
        } else if any_confirmed(self.outputs) {
            Err(Error::ConfirmedUTXO)
        } else {
            settlement(
                total_value(self.inputs),
                total_value(self.outputs),
                first_unlock_failure(self.inputs, unlocking),
                ed25519_strict_accepts(self.sender@, self.hash_id@, self.signature@),
            )
        }
    }
}

impl View for Transaction {
    type V = TransactionView;

    open spec fn view(&self) -> TransactionView {
        TransactionView {
            hash_id: self.hash_id,
            sender: self.sender,
            receiver: self.receiver,
            timestamp: self.timestamp,
            signature: self.signature,
            inputs: utxo_views(self.inputs@),
            outputs: utxo_views(self.outputs@),
        }
    }
}

/// Appends the hashing bytes of every output in `items` to `out`.
fn append_utxo_bytes(out: &mut Vec<u8>, items: &Vec<UTXO>)
    ensures
        final(out)@ == old(out)@ + concat_bytes(utxo_views(items@)),
{
    let ghost all = utxo_views(items@);
    let mut i: usize = 0;
    assert(all.subrange(0, 0) =~= Seq::<UtxoView>::empty());
    while i < items.len()
        invariant
            i <= items@.len(),
            all == utxo_views(items@),
            out@ == old(out)@ + concat_bytes(all.subrange(0, i as int)),
        decreases items@.len() - i,
    {
        let bytes = items[i].to_bytes();
        append_bytes(out, bytes.as_slice());
        proof {
            let next = all.subrange(0, i + 1);
            assert(next.drop_last() =~= all.subrange(0, i as int));
            assert(next.last() == items@[i as int]@);
            assert(out@ =~= old(out)@ + concat_bytes(next));
        }
        i += 1;
    }
    assert(all.subrange(0, items@.len() as int) =~= all);
}

/// Whether one of `items` is pending.
fn has_pending(items: &Vec<UTXO>) -> (r: bool)
    ensures
        r == any_pending(utxo_views(items@)),
{
    let mut i: usize = 0;
    while i < items.len()
        invariant
            i <= items@.len(),
            forall|j: int| 0 <= j < i ==> !((#[trigger] utxo_views(items@)[j]) is Pending),
        decreases items@.len() - i,
    {
        if !items[i].is_confirmed() {
            assert(utxo_views(items@)[i as int] is Pending);
            return true;
        }
        i += 1;
    }
    false
}

/// Whether one of `items` is confirmed.
fn has_confirmed(items: &Vec<UTXO>) -> (r: bool)
    ensures
        r == any_confirmed(utxo_views(items@)),
{
    let mut i: usize = 0;
    while i < items.len()
        invariant
            i <= items@.len(),
            forall|j: int| 0 <= j < i ==> !((#[trigger] utxo_views(items@)[j]) is Confirmed),
        decreases items@.len() - i,
    {
        if items[i].is_confirmed() {
            assert(utxo_views(items@)[i as int] is Confirmed);
            return true;
        }
        i += 1;
    }
    false
}

/// The total of at most `count` values fits in 128 bits.
proof fn lemma_total_bounded(items: Seq<UtxoView>)
    ensures
        0 <= total_value(items) <= items.len() * u64::MAX,
    decreases items.len(),
{
    if items.len() > 0 {
        lemma_total_bounded(items.drop_last());
        assert((items.len() - 1) * u64::MAX + u64::MAX == items.len() * u64::MAX)
            by (nonlinear_arith);
    }
}

/// The sum of the values of `items`.
fn sum_values(items: &Vec<UTXO>) -> (sum: u128)
    ensures
        sum == total_value(utxo_views(items@)),
{
    let ghost all = utxo_views(items@);
    let mut sum: u128 = 0;
    let mut i: usize = 0;
    assert(all.subrange(0, 0) =~= Seq::<UtxoView>::empty());
    while i < items.len()
        invariant
            i <= items@.len(),
            all == utxo_views(items@),
            sum == total_value(all.subrange(0, i as int)),
        decreases items@.len() - i,
    {
        proof {
            let next = all.subrange(0, i + 1);
            assert(next.drop_last() =~= all.subrange(0, i as int));
            assert(next.last() == items@[i as int]@);
            lemma_total_bounded(next);
            assert(next.len() * u64::MAX <= u64::MAX * u64::MAX) by (nonlinear_arith)
                requires
                    next.len() <= u64::MAX,
            ;
            assert(u64::MAX * u64::MAX < u128::MAX) by (nonlinear_arith);
        }
        sum = sum + items[i].value() as u128;
        i += 1;
    }
    assert(all.subrange(0, items@.len() as int) =~= all);
    sum
}

/// Runs the witness against every output in `items`, stopping at the
/// first failure.
fn unlock_all(items: &Vec<UTXO>, unlocking_script: &str) -> (r: Option<Error>)
    ensures
        r == first_unlock_failure(utxo_views(items@), unlocking_script@),
{
    let ghost all = utxo_views(items@);
    let mut i: usize = 0;
    assert(all.subrange(0, all.len() as int) =~= all);
    while i < items.len()
        invariant
            i <= items@.len(),
            all == utxo_views(items@),
            first_unlock_failure(all, unlocking_script@) == first_unlock_failure(
                all.subrange(i as int, all.len() as int),
                unlocking_script@,
            ),
        decreases items@.len() - i,
    {
        let ghost rest = all.subrange(i as int, all.len() as int);
        proof {
            assert(rest[0] == items@[i as int]@);
            assert(rest.drop_first() =~= all.subrange(i + 1, all.len() as int));
        }
        match items[i].unlock(unlocking_script) {
            Err(e) => { return Some(e); },
            Ok(_) => {},
        }
        i += 1;
    }
    None
}

/// Decides a verification from the totals and the results of the outside
/// checks. Outputs above inputs are `InsufficientFunds`; an input total
/// that no `u64` holds is `InvalidUTXOValue`; then the first unlock failure
/// is reported; then a refused signature is `UnAuthorized`.
pub fn settle(
    input_total: u128,
    output_total: u128,
    unlock_failure: Option<Error>,
    signature_accepted: bool,
) -> (r: Result<(u64, u64, u64), Error>)
    ensures
        r == settlement(
            input_total as int,
            output_total as int,
            unlock_failure,
            signature_accepted,
        ),
{
    if output_total > input_total {
        return Err(Error::InsufficientFunds);
    }
    if input_total > u64::MAX as u128 {
        return Err(Error::InvalidUTXOValue);
    }
    if let Some(e) = unlock_failure {
        return Err(e);
    }
    if !signature_accepted {
        return Err(Error::UnAuthorized);
    }
    let input = input_total as u64;
    let output = output_total as u64;
    Ok((input, output, input - output))
}

impl Transaction {
    /// A transaction from the holder of `signing_key` to `receiver`, with
    /// no inputs and no outputs, stamped with the current time and sealed.
    /// A clock that cannot be read gives `TimeError`.
    pub fn new(signing_key: &[u8; 32], receiver: [u8; 32]) -> (r: Result<Self, Error>)
        ensures
            r is Err ==> r == Err::<Transaction, Error>(Error::TimeError),
            r is Ok ==> {
                let t = r->Ok_0@;
                &&& t.sender == ed25519_public_key(signing_key@)
                &&& t.receiver == receiver
                &&& t.inputs.len() == 0
                &&& t.outputs.len() == 0
                &&& t.sealed_by(*signing_key)
            },
    {
        let timestamp = match now_millis() {
            Ok(millis) => millis,
            Err(e) => { return Err(e); },
        };
        Ok(Transaction::new_at(signing_key, receiver, timestamp))
    }

    /// A transaction from the holder of `signing_key` to `receiver`, with
    /// no inputs and no outputs and the given timestamp, sealed.
    pub fn new_at(signing_key: &[u8; 32], receiver: [u8; 32], timestamp: u128) -> (txn: Self)
        ensures
            txn@.sender == ed25519_public_key(signing_key@),
            txn@.receiver == receiver,
            txn@.timestamp == timestamp,
            txn@.inputs.len() == 0,
            txn@.outputs.len() == 0,
            txn@.sealed_by(*signing_key),
            txn@.well_formed(),
    {
        let sender = public_key_of(signing_key);
        let mut txn = Self {
            hash_id: [0u8; 32],
            sender,
            receiver,
            timestamp,
            signature: [0u8; 64],
            inputs: Vec::new(),
            outputs: Vec::new(),
        };
        txn.calculate_hash(signing_key);
        txn
    }

    /// Seals the transaction: sets the identifier to the digest of the body
    /// and the signature to the one that `signing_key` gives of it.
    pub fn calculate_hash(&mut self, signing_key: &[u8; 32])
        ensures
            final(self)@.sealed_by(*signing_key),
            final(self).sender == old(self).sender,
            final(self).receiver == old(self).receiver,
            final(self).timestamp == old(self).timestamp,
            final(self).inputs == old(self).inputs,
            final(self).outputs == old(self).outputs,
    {
        let mut serialized: Vec<u8> = Vec::new();
        append_bytes(&mut serialized, &self.sender);
        append_bytes(&mut serialized, &self.receiver);
        append_u128_le(&mut serialized, self.timestamp);
        append_utxo_bytes(&mut serialized, &self.inputs);
        append_utxo_bytes(&mut serialized, &self.outputs);
        self.hash_id = hash_bytes(serialized.as_slice());
        self.signature = sign_message(signing_key, &self.hash_id);
        assert(serialized@ =~= self@.body_bytes());
    }

    /// Appends `new_inputs` and seals the transaction again. A pending
    /// output among them is refused with `PendingUTXO`, and no outputs at
    /// all with `InsufficientFunds`; a refusal leaves the transaction as it
    /// was.
    pub fn add_inputs(&mut self, new_inputs: Vec<UTXO>, signing_key: &[u8; 32]) -> (r: Result<
        (),
        Error,
    >)
        ensures
            any_pending(utxo_views(new_inputs@)) ==> r == Err::<(), Error>(Error::PendingUTXO),
            !any_pending(utxo_views(new_inputs@)) && new_inputs@.len() == 0 ==> r == Err::<
                (),
                Error,
            >(Error::InsufficientFunds),
            !any_pending(utxo_views(new_inputs@)) && new_inputs@.len() > 0 ==> r is Ok,
            r is Err ==> *final(self) == *old(self),
            r is Ok ==> {
                &&& final(self).inputs@ == old(self).inputs@ + new_inputs@
                &&& final(self).outputs == old(self).outputs
                &&& final(self).sender == old(self).sender
                &&& final(self).receiver == old(self).receiver
                &&& final(self).timestamp == old(self).timestamp
                &&& final(self)@.sealed_by(*signing_key)
                &&& old(self)@.well_formed() ==> final(self)@.well_formed()
            },
    {
        if has_pending(&new_inputs) {
            return Err(Error::PendingUTXO);
        }
        if new_inputs.len() == 0 {
            return Err(Error::InsufficientFunds);
        }
        let mut incoming = new_inputs;
        self.inputs.append(&mut incoming);
        self.calculate_hash(signing_key);
        proof {
            if old(self)@.well_formed() {
                assert forall|i: int| 0 <= i < self@.inputs.len() implies !((
                #[trigger] self@.inputs[i]) is Pending) by {
                    if i < old(self)@.inputs.len() {
                        assert(self@.inputs[i] == old(self)@.inputs[i]);
                    } else {
                        assert(self@.inputs[i] == utxo_views(new_inputs@)[i - old(
                            self,
                        )@.inputs.len()]);
                    }
                }
            }
        }
        Ok(())
    }

    /// Appends `new_outputs` and seals the transaction again. A confirmed
    /// output among them is refused with `ConfirmedUTXO`, and no outputs at
    /// all with `InsufficientFunds`; a refusal leaves the transaction as it
    /// was.
    pub fn add_outputs(&mut self, new_outputs: Vec<UTXO>, signing_key: &[u8; 32]) -> (r: Result<
        (),
        Error,
    >)
        ensures
            any_confirmed(utxo_views(new_outputs@)) ==> r == Err::<(), Error>(
                Error::ConfirmedUTXO,
            ),
            !any_confirmed(utxo_views(new_outputs@)) && new_outputs@.len() == 0 ==> r == Err::<
                (),
                Error,
            >(Error::InsufficientFunds),
            !any_confirmed(utxo_views(new_outputs@)) && new_outputs@.len() > 0 ==> r is Ok,
            r is Err ==> *final(self) == *old(self),
            r is Ok ==> {
                &&& final(self).outputs@ == old(self).outputs@ + new_outputs@
                &&& final(self).inputs == old(self).inputs
                &&& final(self).sender == old(self).sender
                &&& final(self).receiver == old(self).receiver
                &&& final(self).timestamp == old(self).timestamp
                &&& final(self)@.sealed_by(*signing_key)
                &&& old(self)@.well_formed() ==> final(self)@.well_formed()
            },
    {
        if has_confirmed(&new_outputs) {
            return Err(Error::ConfirmedUTXO);
        }
        if new_outputs.len() == 0 {
            return Err(Error::InsufficientFunds);
        }
        let mut incoming = new_outputs;
        self.outputs.append(&mut incoming);
        self.calculate_hash(signing_key);
        proof {
            if old(self)@.well_formed() {
                assert forall|i: int| 0 <= i < self@.outputs.len() implies !((
                #[trigger] self@.outputs[i]) is Confirmed) by {
                    if i < old(self)@.outputs.len() {
                        assert(self@.outputs[i] == old(self)@.outputs[i]);
                    } else {
                        assert(self@.outputs[i] == utxo_views(new_outputs@)[i - old(
                            self,
                        )@.outputs.len()]);
                    }
                }
            }
        }
        Ok(())
    }

    /// Verifies the transaction with the witness `unlocking_script` and
    /// returns the input total, the output total and the fee.
    ///
    /// The sender's key must decode (`Signature`); there must be inputs and
    /// outputs (`InsufficientFunds`); every input must be confirmed
    /// (`PendingUTXO`) and every output pending (`ConfirmedUTXO`); then the
    /// totals, the unlocking of every input and the signature of the
    /// identifier under the sender's key decide.
    pub fn verify(&self, unlocking_script: &str) -> (r: Result<(u64, u64, u64), Error>)
        ensures
            r == self@.verify_result(unlocking_script@),
    {
        if !key_decodes(&self.sender) {
            return Err(Error::Signature);
        }
        if self.inputs.len() == 0 || self.outputs.len() == 0 {
            return Err(Error::InsufficientFunds);
        }
        if has_pending(&self.inputs) {
            return Err(Error::PendingUTXO);
        }
        if has_confirmed(&self.outputs) {
            return Err(Error::ConfirmedUTXO);
        }
        let input_total = sum_values(&self.inputs);
        let output_total = sum_values(&self.outputs);
        let unlock_failure = if output_total > input_total || input_total > u64::MAX as u128 {
            None
        } else {
            unlock_all(&self.inputs, unlocking_script)
        };
        let accepted = if output_total > input_total || input_total > u64::MAX as u128
            || unlock_failure.is_some() {
            false
        } else {
            verify_strict(&self.sender, &self.hash_id, &self.signature)
        };
        settle(input_total, output_total, unlock_failure, accepted)
    }
}

} // verus!
