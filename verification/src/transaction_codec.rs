//! The canonical encoding of transactions and of lists of transactions,
//! and the size of a transaction.

use vstd::prelude::*;
use crate::bytes::{append_bytes, append_u128_le, u128_le};
use crate::errors::{Error, ProtocolError};
use crate::codec::{
    codec_error, enc_len, extend_parse, fits_u32, lemma_array_round_trip, lemma_concat_assoc,
    lemma_len_round_trip, lemma_u128_round_trip, parse_array, parse_u128, parse_u32,
    read_digest, read_signature, read_u128, read_u32, write_len,
};
use crate::utxo::UTXO;
use crate::utxo_codec::{
    enc_utxo_list, lemma_utxo_list_round_trip, lemma_utxos_size, parse_utxo_list,
    read_utxo_list, utxo_list_fits, utxo_size, utxos_size, write_utxo_list,
};
use crate::transaction::{Transaction, TransactionView, utxo_views};
use crate::block::txn_views;

verus! {

/// Whether the transaction can be encoded.
pub open spec fn txn_fits(t: TransactionView) -> bool {
    utxo_list_fits(t.inputs) && utxo_list_fits(t.outputs)
}

/// The encoding of a transaction: its fields in the order of their
/// declaration.
pub open spec fn enc_transaction(t: TransactionView) -> Seq<u8> {
    t.hash_id@ + t.sender@ + t.receiver@ + u128_le(t.timestamp) + t.signature@
        + enc_utxo_list(t.inputs) + enc_utxo_list(t.outputs)
}

/// A transaction at the front of `bytes`, and the bytes after it.
pub open spec fn parse_transaction(bytes: Seq<u8>) -> Option<(TransactionView, Seq<u8>)> {
    let hash_id = parse_array::<32>(bytes);
    let sender = parse_array::<32>(hash_id->Some_0.1);
    let receiver = parse_array::<32>(sender->Some_0.1);
    let timestamp = parse_u128(receiver->Some_0.1);
    let signature = parse_array::<64>(timestamp->Some_0.1);
    let inputs = parse_utxo_list(signature->Some_0.1);
    let outputs = parse_utxo_list(inputs->Some_0.1);
    if hash_id is Some && sender is Some && receiver is Some && timestamp is Some
        && signature is Some && inputs is Some && outputs is Some {
        Some(
            (
                TransactionView {
                    hash_id: hash_id->Some_0.0,
                    sender: sender->Some_0.0,
                    receiver: receiver->Some_0.0,
                    timestamp: timestamp->Some_0.0,
                    signature: signature->Some_0.0,
                    inputs: inputs->Some_0.0,
                    outputs: outputs->Some_0.0,
                },
                outputs->Some_0.1,
            ),
        )
    } else {
        None
    }
}

/// The encodings of the transactions, one after the other.
pub open spec fn enc_txns(items: Seq<TransactionView>) -> Seq<u8>
    decreases items.len(),
{
    if items.len() == 0 {
        Seq::empty()
    } else {
        enc_transaction(items[0]) + enc_txns(items.drop_first())
    }
}

/// `count` transactions at the front of `bytes`, and the bytes after them.
pub open spec fn parse_txns(bytes: Seq<u8>, count: nat) -> Option<
    (Seq<TransactionView>, Seq<u8>),
>
    decreases count,
{
    if count == 0 {
        Some((Seq::empty(), bytes))
    } else {
        match parse_transaction(bytes) {
            None => None,
            Some((first, rest)) => match parse_txns(rest, (count - 1) as nat) {
                None => None,
                Some((others, end)) => Some((seq![first] + others, end)),
            },
        }
    }
}

/// Whether a list of transactions can be encoded.
pub open spec fn txn_list_fits(items: Seq<TransactionView>) -> bool {
    &&& fits_u32(items.len())
    &&& forall|i: int| 0 <= i < items.len() ==> txn_fits(#[trigger] items[i])
}

/// A list of transactions: their number, then their encodings.
pub open spec fn enc_txn_list(items: Seq<TransactionView>) -> Seq<u8> {
    enc_len(items.len()) + enc_txns(items)
}

/// A number, then that many transactions.
pub open spec fn parse_txn_list(bytes: Seq<u8>) -> Option<(Seq<TransactionView>, Seq<u8>)> {
    match parse_u32(bytes) {
        None => None,
        Some((count, rest)) => parse_txns(rest, count as nat),
    }
}

/// The number of bytes that the encoding of a transaction takes: 176 for
/// the fixed fields, four for each of the two list lengths, and the sizes
/// of the inputs and outputs.
pub open spec fn transaction_size(t: TransactionView) -> nat {
    184 + utxos_size(t.inputs) + utxos_size(t.outputs)
}

/// Decoding the encoding of a transaction gives the transaction back, and
/// the bytes that followed it.
pub proof fn lemma_transaction_round_trip(t: TransactionView, rest: Seq<u8>)
    requires
        txn_fits(t),
    ensures
        parse_transaction(enc_transaction(t) + rest) == Some((t, rest)),
{
    let t6 = enc_utxo_list(t.outputs) + rest;
    let t5 = enc_utxo_list(t.inputs) + t6;
    let t4 = t.signature@ + t5;
    let t3 = u128_le(t.timestamp) + t4;
    let t2 = t.receiver@ + t3;
    let t1 = t.sender@ + t2;
    assert(enc_transaction(t) + rest =~= t.hash_id@ + t1);
    lemma_array_round_trip::<32>(t.hash_id, t1);
    lemma_array_round_trip::<32>(t.sender, t2);
    lemma_array_round_trip::<32>(t.receiver, t3);
    lemma_u128_round_trip(t.timestamp, t4);
    lemma_array_round_trip::<64>(t.signature, t5);
    lemma_utxo_list_round_trip(t.inputs, t6);
    lemma_utxo_list_round_trip(t.outputs, rest);
}

/// Decoding the encodings of transactions gives the transactions back.
pub proof fn lemma_txns_round_trip(items: Seq<TransactionView>, rest: Seq<u8>)
    requires
        forall|i: int| 0 <= i < items.len() ==> txn_fits(#[trigger] items[i]),
    ensures
        parse_txns(enc_txns(items) + rest, items.len()) == Some((items, rest)),
    decreases items.len(),
{
    if items.len() == 0 {
        assert(enc_txns(items) + rest =~= rest);
        assert(items =~= Seq::<TransactionView>::empty());
    } else {
        let tail = items.drop_first();
        lemma_concat_assoc(enc_transaction(items[0]), enc_txns(tail), rest);
        lemma_transaction_round_trip(items[0], enc_txns(tail) + rest);
        assert forall|i: int| 0 <= i < tail.len() implies txn_fits(#[trigger] tail[i]) by {
            assert(tail[i] == items[i + 1]);
        }
        lemma_txns_round_trip(tail, rest);
        assert(seq![items[0]] + tail =~= items);
    }
}

/// Decoding the encoding of a list of transactions gives the list back.
pub proof fn lemma_txn_list_round_trip(items: Seq<TransactionView>, rest: Seq<u8>)
    requires
        txn_list_fits(items),
    ensures
        parse_txn_list(enc_txn_list(items) + rest) == Some((items, rest)),
{
    assert(enc_txn_list(items) + rest =~= enc_len(items.len()) + (enc_txns(items) + rest));
    lemma_len_round_trip(items.len(), enc_txns(items) + rest);
    lemma_txns_round_trip(items, rest);
}

/// The encoding of a transaction has `transaction_size` bytes.
pub proof fn lemma_transaction_size(t: TransactionView)
    ensures
        enc_transaction(t).len() == transaction_size(t),
{
    crate::bytes::lemma_scalar_lengths();
    broadcast use vstd::array::array_len_matches_n;

    lemma_utxos_size(t.inputs);
    lemma_utxos_size(t.outputs);
}

/// Appends the encoding of `t` to `out`, when it can be encoded.
pub fn write_transaction(out: &mut Vec<u8>, t: &Transaction) -> (ok: bool)
    ensures
        ok == txn_fits(t@),
        ok ==> final(out)@ == old(out)@ + enc_transaction(t@),
{
    append_bytes(out, &t.hash_id);
    append_bytes(out, &t.sender);
    append_bytes(out, &t.receiver);
    append_u128_le(out, t.timestamp);
    append_bytes(out, &t.signature);
    if !write_utxo_list(out, &t.inputs) {
        return false;
    }
    if !write_utxo_list(out, &t.outputs) {
        return false;
    }
    assert(out@ =~= old(out)@ + enc_transaction(t@));
    true
}

/// Reads a transaction that begins at `pos`.
pub fn read_transaction(bytes: &[u8], pos: usize) -> (r: Option<(Transaction, usize)>)
    requires
        pos <= bytes@.len(),
    ensures
        match parse_transaction(bytes@.skip(pos as int)) {
            None => r is None,
            Some((t, rest)) => r is Some && r->Some_0.0@ == t && pos <= r->Some_0.1
                <= bytes@.len() && bytes@.skip(r->Some_0.1 as int) == rest,
        },
{
    let (hash_id, pos1) = match read_digest(bytes, pos) {
        Some(pair) => pair,
        None => { return None; },
    };
    let (sender, pos2) = match read_digest(bytes, pos1) {
        Some(pair) => pair,
        None => { return None; },
    };
    let (receiver, pos3) = match read_digest(bytes, pos2) {
        Some(pair) => pair,
        None => { return None; },
    };
    let (timestamp, pos4) = match read_u128(bytes, pos3) {
        Some(pair) => pair,
        None => { return None; },
    };
    let (signature, pos5) = match read_signature(bytes, pos4) {
        Some(pair) => pair,
        None => { return None; },
    };
    let (inputs, pos6) = match read_utxo_list(bytes, pos5) {
        Some(pair) => pair,
        None => { return None; },
    };
    let (outputs, pos7) = match read_utxo_list(bytes, pos6) {
        Some(pair) => pair,
        None => { return None; },
    };
    Some((Transaction { hash_id, sender, receiver, timestamp, signature, inputs, outputs }, pos7))
}

/// Appends the encoding of the list `items` to `out`, when it can be
/// encoded.
pub fn write_txn_list(out: &mut Vec<u8>, items: &Vec<Transaction>) -> (ok: bool)
    ensures
        ok == txn_list_fits(txn_views(items@)),
        ok ==> final(out)@ == old(out)@ + enc_txn_list(txn_views(items@)),
{
    if !write_len(out, items.len()) {
        return false;
    }
    let ghost all = txn_views(items@);
    let ghost base = out@;
    let mut i: usize = 0;
    assert(all.skip(0) =~= all);
    while i < items.len()
        invariant
            i <= items@.len(),
            all == txn_views(items@),
            base == old(out)@ + enc_len(all.len()),
            forall|j: int| 0 <= j < i ==> txn_fits(#[trigger] all[j]),
            out@ + enc_txns(all.skip(i as int)) == base + enc_txns(all),
        decreases items@.len() - i,
    {
        let ghost before = out@;
        if !write_transaction(out, &items[i]) {
            assert(!txn_fits(all[i as int]));
            return false;
        }
        proof {
            let rest = all.skip(i as int);
            assert(rest[0] == items@[i as int]@);
            assert(rest.drop_first() =~= all.skip(i + 1));
            assert(out@ + enc_txns(all.skip(i + 1)) =~= before + enc_txns(rest));
        }
        i += 1;
    }
    assert(all.skip(all.len() as int) =~= Seq::<TransactionView>::empty());
    assert(out@ =~= old(out)@ + enc_txn_list(all));
    true
}

/// Reads a list of transactions that begins at `pos`.
pub fn read_txn_list(bytes: &[u8], pos: usize) -> (r: Option<(Vec<Transaction>, usize)>)
    requires
        pos <= bytes@.len(),
    ensures
        match parse_txn_list(bytes@.skip(pos as int)) {
            None => r is None,
            Some((items, rest)) => r is Some && txn_views(r->Some_0.0@) == items && pos
                <= r->Some_0.1 <= bytes@.len() && bytes@.skip(r->Some_0.1 as int) == rest,
        },
{
    let (count, start) = match read_u32(bytes, pos) {
        Some(pair) => pair,
        None => { return None; },
    };
    let mut items: Vec<Transaction> = Vec::new();
    let mut at = start;
    let mut i: u32 = 0;
    let ghost whole = parse_txns(bytes@.skip(start as int), count as nat);
    assert(txn_views(items@) =~= Seq::<TransactionView>::empty());
    assert(extend_parse(
        txn_views(items@),
        parse_txns(bytes@.skip(at as int), (count - i) as nat),
    ) =~= whole) by {
        let more = parse_txns(bytes@.skip(at as int), (count - i) as nat);
        if more is Some {
            assert(Seq::<TransactionView>::empty() + more->Some_0.0 =~= more->Some_0.0);
        }
    }
    while i < count
        invariant
            i <= count,
            start <= at <= bytes@.len(),
            whole == parse_txn_list(bytes@.skip(pos as int)),
            extend_parse(
                txn_views(items@),
                parse_txns(bytes@.skip(at as int), (count - i) as nat),
            ) == whole,
        decreases count - i,
    {
        let ghost done = txn_views(items@);
        let (item, next) = match read_transaction(bytes, at) {
            Some(pair) => pair,
            None => { return None; },
        };
        proof {
            let more = parse_txns(bytes@.skip(next as int), (count - i - 1) as nat);
            if more is Some {
                assert(done + (seq![item@] + more->Some_0.0) =~= done.push(item@)
                    + more->Some_0.0);
            }
        }
        items.push(item);
        assert(txn_views(items@) =~= done.push(item@));
        at = next;
        i += 1;
    }
    assert(txn_views(items@) + Seq::<TransactionView>::empty() =~= txn_views(items@));
    Some((items, at))
}

/// The number of bytes of the encoding of `u`, or the largest `u64` when
/// the number is larger.
fn utxo_size_capped(u: &UTXO) -> (size: u64)
    ensures
        size as nat == if utxo_size(u@) <= u64::MAX {
            utxo_size(u@)
        } else {
            u64::MAX as nat
        },
{
    match u {
        UTXO::Pending { .. } => 13,
        UTXO::Confirmed { script_pubkey, .. } => {
            let n = script_pubkey.as_str().as_bytes().len() as u64;
            n.saturating_add(90)
        },
    }
}

/// The number of bytes of the encodings of `items`, or the largest `u64`
/// when the number is larger.
fn utxos_size_capped(items: &Vec<UTXO>) -> (size: u64)
    ensures
        size as nat == if utxos_size(utxo_views(items@)) <= u64::MAX {
            utxos_size(utxo_views(items@))
        } else {
            u64::MAX as nat
        },
{
    let ghost all = utxo_views(items@);
    let mut size: u64 = 0;
    let mut i: usize = items.len();
    assert(all.skip(all.len() as int) =~= Seq::<crate::utxo::UtxoView>::empty());
    while i > 0
        invariant
            i <= items@.len(),
            all == utxo_views(items@),
            size as nat == if utxos_size(all.skip(i as int)) <= u64::MAX {
                utxos_size(all.skip(i as int))
            } else {
                u64::MAX as nat
            },
        decreases i,
    {
        i -= 1;
        proof {
            let rest = all.skip(i as int);
            assert(rest[0] == items@[i as int]@);
            assert(rest.drop_first() =~= all.skip(i + 1));
        }
        size = size.saturating_add(utxo_size_capped(&items[i]));
    }
    assert(all.skip(0) =~= all);
    size
}

impl Transaction {
    /// The number of bytes that the canonical encoding of the transaction
    /// takes, or the largest `u64` when the number is larger. It is never
    /// zero.
    pub fn size(&self) -> (size: u64)
        ensures
            size as nat == if transaction_size(self@) <= u64::MAX {
                transaction_size(self@)
            } else {
                u64::MAX as nat
            },
            size >= 184,
    {
        let inputs = utxos_size_capped(&self.inputs);
        let outputs = utxos_size_capped(&self.outputs);
        inputs.saturating_add(outputs).saturating_add(184)
    }

    /// The canonical encoding of the transaction. A transaction with a
    /// list or a script too long for a 32-bit length gives a serialization
    /// error.
    pub fn encode(&self) -> (r: Result<Vec<u8>, Error>)
        ensures
            txn_fits(self@) ==> r is Ok && r->Ok_0@ == enc_transaction(self@),
            !txn_fits(self@) ==> r == Err::<Vec<u8>, Error>(codec_error()),
    {
        let mut out: Vec<u8> = Vec::new();
        if write_transaction(&mut out, self) {
            assert(out@ =~= enc_transaction(self@));
            Ok(out)
        } else {
            Err(Error::Protocol(ProtocolError::SerializationError))
        }
    }

    /// The transaction that `bytes` encode. Bytes that are no encoding of
    /// a transaction, or that go on after one, give a serialization error.
    pub fn decode(bytes: &[u8]) -> (r: Result<Transaction, Error>)
        ensures
            match parse_transaction(bytes@) {
                Some((t, rest)) => if rest.len() == 0 {
                    r is Ok && r->Ok_0@ == t
                } else {
                    r == Err::<Transaction, Error>(codec_error())
                },
                None => r == Err::<Transaction, Error>(codec_error()),
            },
    {
        assert(bytes@.skip(0) =~= bytes@);
        match read_transaction(bytes, 0) {
            Some((t, end)) => {
                if end == bytes.len() {
                    Ok(t)
                } else {
                    Err(Error::Protocol(ProtocolError::SerializationError))
                }
            },
            None => Err(Error::Protocol(ProtocolError::SerializationError)),
        }
    }
}

/// Decoding the encoding of a transaction gives the transaction back.
pub proof fn lemma_transaction_decode_encode(t: TransactionView)
    requires
        txn_fits(t),
    ensures
        parse_transaction(enc_transaction(t)) == Some((t, Seq::<u8>::empty())),
{
    lemma_transaction_round_trip(t, Seq::empty());
    assert(enc_transaction(t) + Seq::<u8>::empty() =~= enc_transaction(t));
}

} // verus!
