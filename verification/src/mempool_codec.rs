//! The canonical encoding of a memory pool: its bound, its transactions
//! under their identifiers, and its entries, both in the order of priority.

use vstd::prelude::*;
use crate::bytes::{append_bytes, append_u128_le, append_u64_le, same_digest, u128_le, u64_le};
use crate::errors::{Error, ProtocolError};
use crate::codec::{
    codec_error, enc_len, extend_parse, fits_u32, lemma_array_round_trip, lemma_concat_assoc,
    lemma_len_round_trip, lemma_u128_round_trip, lemma_u64_round_trip, parse_array, parse_u128,
    parse_u32, parse_u64, read_digest, read_u128, read_u32, read_u64, write_len,
};
use crate::transaction::{Transaction, TransactionView};
use crate::transaction_codec::{
    enc_transaction, lemma_transaction_round_trip, parse_transaction, read_transaction,
    txn_fits, txn_list_fits, write_transaction,
};
use crate::block::txn_views;
use crate::mempool::{MemPool, MemPoolView, PriorityEntry};

verus! {

/// The encoding of an entry: its fields in the order of their declaration.
pub open spec fn enc_entry(e: PriorityEntry) -> Seq<u8> {
    u64_le(e.fee_per_byte) + u128_le(e.timestamp)
        + u64_le(e.size) + e.txn_hash@
}

/// An entry at the front of `bytes`, and the bytes after it.
pub open spec fn parse_entry(bytes: Seq<u8>) -> Option<(PriorityEntry, Seq<u8>)> {
    let fee = parse_u64(bytes);
    let timestamp = parse_u128(fee->Some_0.1);
    let size = parse_u64(timestamp->Some_0.1);
    let hash = parse_array::<32>(size->Some_0.1);
    if fee is Some && timestamp is Some && size is Some && hash is Some {
        Some(
            (
                PriorityEntry {
                    fee_per_byte: fee->Some_0.0,
                    timestamp: timestamp->Some_0.0,
                    size: size->Some_0.0,
                    txn_hash: hash->Some_0.0,
                },
                hash->Some_0.1,
            ),
        )
    } else {
        None
    }
}

/// The encodings of the entries, one after the other.
pub open spec fn enc_entries(items: Seq<PriorityEntry>) -> Seq<u8>
    decreases items.len(),
{
    if items.len() == 0 {
        Seq::empty()
    } else {
        enc_entry(items[0]) + enc_entries(items.drop_first())
    }
}

/// `count` entries at the front of `bytes`, and the bytes after them.
pub open spec fn parse_entries(bytes: Seq<u8>, count: nat) -> Option<
    (Seq<PriorityEntry>, Seq<u8>),
>
    decreases count,
{
    if count == 0 {
        Some((Seq::empty(), bytes))
    } else {
        match parse_entry(bytes) {
            None => None,
            Some((first, rest)) => match parse_entries(rest, (count - 1) as nat) {
                None => None,
                Some((others, end)) => Some((seq![first] + others, end)),
            },
        }
    }
}

/// A transaction under its identifier: the identifier, then the
/// transaction.
pub open spec fn enc_keyed(t: TransactionView) -> Seq<u8> {
    t.hash_id@ + enc_transaction(t)
}

/// An identifier and the transaction that carries it, at the front of
/// `bytes`, and the bytes after them.
pub open spec fn parse_keyed(bytes: Seq<u8>) -> Option<(TransactionView, Seq<u8>)> {
    match parse_array::<32>(bytes) {
        None => None,
        Some((key, rest)) => match parse_transaction(rest) {
            None => None,
            Some((t, end)) => if t.hash_id == key {
                Some((t, end))
            } else {
                None
            },
        },
    }
}

/// The encodings of the transactions under their identifiers, one after
/// the other.
pub open spec fn enc_keyed_txns(items: Seq<TransactionView>) -> Seq<u8>
    decreases items.len(),
{
    if items.len() == 0 {
        Seq::empty()
    } else {
        enc_keyed(items[0]) + enc_keyed_txns(items.drop_first())
    }
}

/// `count` transactions under their identifiers at the front of `bytes`,
/// and the bytes after them.
pub open spec fn parse_keyed_txns(bytes: Seq<u8>, count: nat) -> Option<
    (Seq<TransactionView>, Seq<u8>),
>
    decreases count,
{
    if count == 0 {
        Some((Seq::empty(), bytes))
    } else {
        match parse_keyed(bytes) {
            None => None,
            Some((first, rest)) => match parse_keyed_txns(rest, (count - 1) as nat) {
                None => None,
                Some((others, end)) => Some((seq![first] + others, end)),
            },
        }
    }
}

/// Whether the pool can be encoded.
pub open spec fn pool_fits(p: MemPoolView) -> bool {
    txn_list_fits(p.transactions) && fits_u32(p.entries.len())
}

/// The encoding of a pool: the bound in eight bytes, the number of
/// transactions and the transactions under their identifiers, the number
/// of entries and the entries.
pub open spec fn enc_pool(p: MemPoolView) -> Seq<u8> {
    u64_le(p.max_size as u64) + enc_len(p.transactions.len()) + enc_keyed_txns(
        p.transactions,
    ) + enc_len(p.entries.len()) + enc_entries(p.entries)
}

/// A pool at the front of `bytes`, and the bytes after it. Nothing is
/// asked of the pool but that its bound fits the machine.
pub open spec fn parse_pool(bytes: Seq<u8>) -> Option<(MemPoolView, Seq<u8>)> {
    let bound = parse_u64(bytes);
    let count = parse_u32(bound->Some_0.1);
    let transactions = parse_keyed_txns(count->Some_0.1, count->Some_0.0 as nat);
    let entry_count = parse_u32(transactions->Some_0.1);
    let entries = parse_entries(entry_count->Some_0.1, entry_count->Some_0.0 as nat);
    if bound is Some && bound->Some_0.0 <= usize::MAX && count is Some && transactions is Some
        && entry_count is Some && entries is Some {
        Some(
            (
                MemPoolView {
                    entries: entries->Some_0.0,
                    transactions: transactions->Some_0.0,
                    max_size: bound->Some_0.0 as usize,
                },
                entries->Some_0.1,
            ),
        )
    } else {
        None
    }
}

/// What decoding a whole byte string gives: the well-formed pool that it
/// encodes, or nothing.
pub open spec fn decoded_pool(bytes: Seq<u8>) -> Option<MemPoolView> {
    match parse_pool(bytes) {
        Some((p, rest)) => if rest.len() == 0 && p.well_formed() {
            Some(p)
        } else {
            None
        },
        None => None,
    }
}

/// Decoding the encoding of an entry gives the entry back.
pub proof fn lemma_entry_round_trip(e: PriorityEntry, rest: Seq<u8>)
    ensures
        parse_entry(enc_entry(e) + rest) == Some((e, rest)),
{
    let t3 = e.txn_hash@ + rest;
    let t2 = u64_le(e.size) + t3;
    let t1 = u128_le(e.timestamp) + t2;
    assert(enc_entry(e) + rest =~= u64_le(e.fee_per_byte) + t1);
    lemma_u64_round_trip(e.fee_per_byte, t1);
    lemma_u128_round_trip(e.timestamp, t2);
    lemma_u64_round_trip(e.size, t3);
    lemma_array_round_trip::<32>(e.txn_hash, rest);
}

/// Decoding the encodings of entries gives the entries back.
pub proof fn lemma_entries_round_trip(items: Seq<PriorityEntry>, rest: Seq<u8>)
    ensures
        parse_entries(enc_entries(items) + rest, items.len()) == Some((items, rest)),
    decreases items.len(),
{
    if items.len() == 0 {
        assert(enc_entries(items) + rest =~= rest);
        assert(items =~= Seq::<PriorityEntry>::empty());
    } else {
        let tail = items.drop_first();
        lemma_concat_assoc(enc_entry(items[0]), enc_entries(tail), rest);
        lemma_entry_round_trip(items[0], enc_entries(tail) + rest);
        lemma_entries_round_trip(tail, rest);
        assert(seq![items[0]] + tail =~= items);
    }
}

/// Decoding the encoding of a transaction under its identifier gives the
/// transaction back.
pub proof fn lemma_keyed_round_trip(t: TransactionView, rest: Seq<u8>)
    requires
        txn_fits(t),
    ensures
        parse_keyed(enc_keyed(t) + rest) == Some((t, rest)),
{
    lemma_concat_assoc(t.hash_id@, enc_transaction(t), rest);
    lemma_array_round_trip::<32>(t.hash_id, enc_transaction(t) + rest);
    lemma_transaction_round_trip(t, rest);
}

/// Decoding the encodings of transactions under their identifiers gives
/// the transactions back.
pub proof fn lemma_keyed_txns_round_trip(items: Seq<TransactionView>, rest: Seq<u8>)
    requires
        forall|i: int| 0 <= i < items.len() ==> txn_fits(#[trigger] items[i]),
    ensures
        parse_keyed_txns(enc_keyed_txns(items) + rest, items.len()) == Some((items, rest)),
    decreases items.len(),
{
    if items.len() == 0 {
        assert(enc_keyed_txns(items) + rest =~= rest);
        assert(items =~= Seq::<TransactionView>::empty());
    } else {
        let tail = items.drop_first();
        lemma_concat_assoc(enc_keyed(items[0]), enc_keyed_txns(tail), rest);
        lemma_keyed_round_trip(items[0], enc_keyed_txns(tail) + rest);
        assert forall|i: int| 0 <= i < tail.len() implies txn_fits(#[trigger] tail[i]) by {
            assert(tail[i] == items[i + 1]);
        }
        lemma_keyed_txns_round_trip(tail, rest);
        assert(seq![items[0]] + tail =~= items);
    }
}

/// Five byte strings and a rest, joined from the left, are the first
/// followed by the join of the others.
proof fn lemma_concat_five(
    a: Seq<u8>,
    b: Seq<u8>,
    c: Seq<u8>,
    d: Seq<u8>,
    e: Seq<u8>,
    rest: Seq<u8>,
)
    ensures
        a + b + c + d + e + rest == a + (b + (c + (d + (e + rest)))),
{
    assert(a + b + c + d + e + rest =~= a + (b + (c + (d + (e + rest)))));
}

/// Decoding the encoding of a pool gives the pool back, and the bytes that
/// followed it.
pub proof fn lemma_pool_round_trip(p: MemPoolView, rest: Seq<u8>)
    requires
        pool_fits(p),
    ensures
        parse_pool(enc_pool(p) + rest) == Some((p, rest)),
{
    let t4 = enc_entries(p.entries) + rest;
    let t3 = enc_len(p.entries.len()) + t4;
    let t2 = enc_keyed_txns(p.transactions) + t3;
    let t1 = enc_len(p.transactions.len()) + t2;
    let all = u64_le(p.max_size as u64) + t1;
    assert(enc_pool(p) + rest == all) by {
        lemma_concat_five(
            u64_le(p.max_size as u64),
            enc_len(p.transactions.len()),
            enc_keyed_txns(p.transactions),
            enc_len(p.entries.len()),
            enc_entries(p.entries),
            rest,
        );
    }
    assert(parse_u64(all) == Some((p.max_size as u64, t1))) by {
        lemma_u64_round_trip(p.max_size as u64, t1);
    }
    assert(parse_u32(t1) == Some((p.transactions.len() as u32, t2))) by {
        lemma_len_round_trip(p.transactions.len(), t2);
    }
    assert(parse_keyed_txns(t2, p.transactions.len()) == Some((p.transactions, t3))) by {
        lemma_keyed_txns_round_trip(p.transactions, t3);
    }
    assert(parse_u32(t3) == Some((p.entries.len() as u32, t4))) by {
        lemma_len_round_trip(p.entries.len(), t4);
    }
    assert(parse_entries(t4, p.entries.len()) == Some((p.entries, rest))) by {
        lemma_entries_round_trip(p.entries, rest);
    }
}

/// Decoding the whole encoding of a well-formed pool gives the pool back.
pub proof fn lemma_pool_decode_encode(p: MemPoolView)
    requires
        p.well_formed(),
        pool_fits(p),
    ensures
        decoded_pool(enc_pool(p)) == Some(p),
{
    lemma_pool_round_trip(p, Seq::empty());
    assert(enc_pool(p) + Seq::<u8>::empty() =~= enc_pool(p));
}

/// Appends the encoding of `e` to `out`.
fn write_entry(out: &mut Vec<u8>, e: &PriorityEntry)
    ensures
        final(out)@ == old(out)@ + enc_entry(*e),
{
    append_u64_le(out, e.fee_per_byte);
    append_u128_le(out, e.timestamp);
    append_u64_le(out, e.size);
    append_bytes(out, &e.txn_hash);
    assert(out@ =~= old(out)@ + enc_entry(*e));
}

/// Reads an entry that begins at `pos`.
fn read_entry(bytes: &[u8], pos: usize) -> (r: Option<(PriorityEntry, usize)>)
    requires
        pos <= bytes@.len(),
    ensures
        match parse_entry(bytes@.skip(pos as int)) {
            None => r is None,
            Some((e, rest)) => r is Some && r->Some_0.0 == e && pos <= r->Some_0.1
                <= bytes@.len() && bytes@.skip(r->Some_0.1 as int) == rest,
        },
{
    let (fee_per_byte, pos1) = match read_u64(bytes, pos) {
        Some(pair) => pair,
        None => { return None; },
    };
    let (timestamp, pos2) = match read_u128(bytes, pos1) {
        Some(pair) => pair,
        None => { return None; },
    };
    let (size, pos3) = match read_u64(bytes, pos2) {
        Some(pair) => pair,
        None => { return None; },
    };
    let (txn_hash, pos4) = match read_digest(bytes, pos3) {
        Some(pair) => pair,
        None => { return None; },
    };
    Some((PriorityEntry { fee_per_byte, timestamp, size, txn_hash }, pos4))
}

/// Appends the encodings of `items` to `out`.
fn write_entries(out: &mut Vec<u8>, items: &Vec<PriorityEntry>)
    ensures
        final(out)@ == old(out)@ + enc_entries(items@),
{
    let mut i: usize = 0;
    assert(items@.skip(0) =~= items@);
    while i < items.len()
        invariant
            i <= items@.len(),
            out@ + enc_entries(items@.skip(i as int)) == old(out)@ + enc_entries(items@),
        decreases items@.len() - i,
    {
        let ghost before = out@;
        write_entry(out, &items[i]);
        proof {
            let rest = items@.skip(i as int);
            assert(rest[0] == items@[i as int]);
            assert(rest.drop_first() =~= items@.skip(i + 1));
            assert(out@ + enc_entries(items@.skip(i + 1)) =~= before + enc_entries(rest));
        }
        i += 1;
    }
    assert(items@.skip(items@.len() as int) =~= Seq::<PriorityEntry>::empty());
    assert(out@ =~= old(out)@ + enc_entries(items@));
}

/// Reads `count` entries that begin at `pos`.
fn read_entries(bytes: &[u8], pos: usize, count: u32) -> (r: Option<(Vec<PriorityEntry>, usize)>)
    requires
        pos <= bytes@.len(),
    ensures
        match parse_entries(bytes@.skip(pos as int), count as nat) {
            None => r is None,
            Some((items, rest)) => r is Some && r->Some_0.0@ == items && pos <= r->Some_0.1
                <= bytes@.len() && bytes@.skip(r->Some_0.1 as int) == rest,
        },
{
    let mut items: Vec<PriorityEntry> = Vec::new();
    let mut at = pos;
    let mut i: u32 = 0;
    let ghost whole = parse_entries(bytes@.skip(pos as int), count as nat);
    assert(extend_parse(items@, parse_entries(bytes@.skip(at as int), (count - i) as nat))
        =~= whole) by {
        let more = parse_entries(bytes@.skip(at as int), (count - i) as nat);
        if more is Some {
            assert(Seq::<PriorityEntry>::empty() + more->Some_0.0 =~= more->Some_0.0);
        }
    }
    while i < count
        invariant
            i <= count,
            pos <= at <= bytes@.len(),
            whole == parse_entries(bytes@.skip(pos as int), count as nat),
            extend_parse(items@, parse_entries(bytes@.skip(at as int), (count - i) as nat))
                == whole,
        decreases count - i,
    {
        let ghost done = items@;
        let (item, next) = match read_entry(bytes, at) {
            Some(pair) => pair,
            None => { return None; },
        };
        proof {
            let more = parse_entries(bytes@.skip(next as int), (count - i - 1) as nat);
            if more is Some {
                assert(done + (seq![item] + more->Some_0.0) =~= done.push(item)
                    + more->Some_0.0);
            }
        }
        items.push(item);
        at = next;
        i += 1;
    }
    assert(items@ + Seq::<PriorityEntry>::empty() =~= items@);
    Some((items, at))
}

/// Appends the encodings of `items` under their identifiers to `out`, when
/// each of them can be encoded.
fn write_keyed_txns(out: &mut Vec<u8>, items: &Vec<Transaction>) -> (ok: bool)
    ensures
        ok == (forall|i: int| 0 <= i < items@.len() ==> txn_fits(#[trigger] txn_views(items@)[i])),
        ok ==> final(out)@ == old(out)@ + enc_keyed_txns(txn_views(items@)),
{
    let ghost all = txn_views(items@);
    let mut i: usize = 0;
    assert(all.skip(0) =~= all);
    while i < items.len()
        invariant
            i <= items@.len(),
            all == txn_views(items@),
            forall|j: int| 0 <= j < i ==> txn_fits(#[trigger] all[j]),
            out@ + enc_keyed_txns(all.skip(i as int)) == old(out)@ + enc_keyed_txns(all),
        decreases items@.len() - i,
    {
        let ghost before = out@;
        append_bytes(out, &items[i].hash_id);
        if !write_transaction(out, &items[i]) {
            assert(!txn_fits(all[i as int]));
            return false;
        }
        proof {
            let rest = all.skip(i as int);
            assert(rest[0] == items@[i as int]@);
            assert(rest.drop_first() =~= all.skip(i + 1));
            assert(out@ =~= before + enc_keyed(rest[0]));
            assert(out@ + enc_keyed_txns(all.skip(i + 1)) =~= before + enc_keyed_txns(rest));
        }
        i += 1;
    }
    assert(all.skip(all.len() as int) =~= Seq::<TransactionView>::empty());
    assert(out@ =~= old(out)@ + enc_keyed_txns(all));
    true
}

/// Reads `count` transactions under their identifiers that begin at `pos`.
fn read_keyed_txns(bytes: &[u8], pos: usize, count: u32) -> (r: Option<(Vec<Transaction>, usize)>)
    requires
        pos <= bytes@.len(),
    ensures
        match parse_keyed_txns(bytes@.skip(pos as int), count as nat) {
            None => r is None,
            Some((items, rest)) => r is Some && txn_views(r->Some_0.0@) == items && pos
                <= r->Some_0.1 <= bytes@.len() && bytes@.skip(r->Some_0.1 as int) == rest,
        },
{
    let mut items: Vec<Transaction> = Vec::new();
    let mut at = pos;
    let mut i: u32 = 0;
    let ghost whole = parse_keyed_txns(bytes@.skip(pos as int), count as nat);
    assert(txn_views(items@) =~= Seq::<TransactionView>::empty());
    assert(extend_parse(
        txn_views(items@),
        parse_keyed_txns(bytes@.skip(at as int), (count - i) as nat),
    ) =~= whole) by {
        let more = parse_keyed_txns(bytes@.skip(at as int), (count - i) as nat);
        if more is Some {
            assert(Seq::<TransactionView>::empty() + more->Some_0.0 =~= more->Some_0.0);
        }
    }
    while i < count
        invariant
            i <= count,
            pos <= at <= bytes@.len(),
            whole == parse_keyed_txns(bytes@.skip(pos as int), count as nat),
            extend_parse(
                txn_views(items@),
                parse_keyed_txns(bytes@.skip(at as int), (count - i) as nat),
            ) == whole,
        decreases count - i,
    {
        let ghost done = txn_views(items@);
        let (key, body) = match read_digest(bytes, at) {
            Some(pair) => pair,
            None => { return None; },
        };
        let (item, next) = match read_transaction(bytes, body) {
            Some(pair) => pair,
            None => { return None; },
        };
        if !same_digest(&item.hash_id, &key) {
            return None;
        }
        proof {
            let more = parse_keyed_txns(bytes@.skip(next as int), (count - i - 1) as nat);
            if more is Some {
                assert(done + (seq![item@] + more->Some_0.0) =~= done.push(item@)
                    + more->Some_0.0);
            }
        }
        items.push(item);
        assert(txn_views(items@) =~= done.push(item@));
        at = next;
        i += 1;
    }
    assert(txn_views(items@) + Seq::<TransactionView>::empty() =~= txn_views(items@));
    Some((items, at))
}

impl MemPool {
    /// The canonical encoding of the pool. A pool with a list or a script
    /// too long for a 32-bit length gives a serialization error.
    pub fn encode(&self) -> (r: Result<Vec<u8>, Error>)
        requires
            self@.well_formed(),
        ensures
            pool_fits(self@) ==> r is Ok && r->Ok_0@ == enc_pool(self@),
            !pool_fits(self@) ==> r == Err::<Vec<u8>, Error>(codec_error()),
    {
        let mut out: Vec<u8> = Vec::new();
        append_u64_le(&mut out, self.max_size() as u64);
        if !write_len(&mut out, self.transactions().len()) {
            return Err(Error::Protocol(ProtocolError::SerializationError));
        }
        if !write_keyed_txns(&mut out, self.transactions()) {
            return Err(Error::Protocol(ProtocolError::SerializationError));
        }
        let _ = write_len(&mut out, self.entries().len());
        write_entries(&mut out, self.entries());
        assert(out@ =~= enc_pool(self@));
        Ok(out)
    }

    /// The pool that `bytes` encode. Bytes that are no encoding of a pool,
    /// that go on after one, or that encode a pool which is not well
    /// formed, give a serialization error.
    pub fn decode(bytes: &[u8]) -> (r: Result<MemPool, Error>)
        ensures
            match decoded_pool(bytes@) {
                Some(p) => r is Ok && r->Ok_0@ == p && r->Ok_0@.well_formed(),
                None => r == Err::<MemPool, Error>(codec_error()),
            },
    {
        assert(bytes@.skip(0) =~= bytes@);
        let (bound, pos1) = match read_u64(bytes, 0) {
            Some(pair) => pair,
            None => { return Err(Error::Protocol(ProtocolError::SerializationError)); },
        };
        if bound > usize::MAX as u64 {
            return Err(Error::Protocol(ProtocolError::SerializationError));
        }
        let (count, pos2) = match read_u32(bytes, pos1) {
            Some(pair) => pair,
            None => { return Err(Error::Protocol(ProtocolError::SerializationError)); },
        };
        let (transactions, pos3) = match read_keyed_txns(bytes, pos2, count) {
            Some(pair) => pair,
            None => { return Err(Error::Protocol(ProtocolError::SerializationError)); },
        };
        let (entry_count, pos4) = match read_u32(bytes, pos3) {
            Some(pair) => pair,
            None => { return Err(Error::Protocol(ProtocolError::SerializationError)); },
        };
        let (entries, pos5) = match read_entries(bytes, pos4, entry_count) {
            Some(pair) => pair,
            None => { return Err(Error::Protocol(ProtocolError::SerializationError)); },
        };
        if pos5 != bytes.len() {
            return Err(Error::Protocol(ProtocolError::SerializationError));
        }
        match MemPool::from_parts(transactions, entries, bound as usize) {
            Some(pool) => Ok(pool),
            None => Err(Error::Protocol(ProtocolError::SerializationError)),
        }
    }
}

} // verus!
