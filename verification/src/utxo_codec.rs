//! The canonical encoding of outputs and of lists of outputs.

use vstd::prelude::*;
use vstd::string::*;
use crate::bytes::{append_bytes, append_u32_le, append_u64_le, u32_le, u64_le};
use vstd::utf8::encode_utf8;
use crate::errors::{Error, ProtocolError};
use crate::codec::{
    codec_error, enc_bool, enc_len, enc_text, extend_parse, fits_u32, lemma_array_round_trip,
    lemma_bool_round_trip, lemma_concat_assoc, lemma_len_round_trip, lemma_text_round_trip,
    lemma_u32_round_trip, lemma_u64_round_trip, parse_array, parse_bool, parse_text, parse_u32,
    parse_u64, parse_u8, read_bool, read_digest, read_text, read_u32, read_u64, read_u8,
    write_bool, write_len, write_text,
};
use crate::utxo::{UTXO, UtxoView};
use crate::transaction::utxo_views;

verus! {

/// Whether the output can be encoded: the length of its script fits.
pub open spec fn utxo_fits(u: UtxoView) -> bool {
    match u {
        UtxoView::Pending { .. } => true,
        UtxoView::Confirmed { script_pubkey, .. } => fits_u32(encode_utf8(script_pubkey).len()),
    }
}

/// The encoding of an output: the tag 0 and the fields of a pending
/// output, or the tag 1 and the fields of a confirmed one, in the order of
/// their declaration.
pub open spec fn enc_utxo(u: UtxoView) -> Seq<u8> {
    match u {
        UtxoView::Pending { value, index } => seq![0u8] + u64_le(value)
            + u32_le(index),
        UtxoView::Confirmed {
            id,
            script_pubkey,
            value,
            txn_hash,
            index,
            created_at,
            block_height,
            is_coinbase,
        } => seq![1u8] + id@ + enc_text(script_pubkey) + u64_le(value) + txn_hash@
            + u32_le(index) + u32_le(created_at)
            + u32_le(block_height) + enc_bool(is_coinbase),
    }
}

/// The body of a pending output.
pub open spec fn parse_pending(bytes: Seq<u8>) -> Option<(UtxoView, Seq<u8>)> {
    let value = parse_u64(bytes);
    let index = parse_u32(value->Some_0.1);
    if value is Some && index is Some {
        Some((UtxoView::Pending { value: value->Some_0.0, index: index->Some_0.0 }, index->Some_0.1))
    } else {
        None
    }
}

/// The body of a confirmed output.
pub open spec fn parse_confirmed(bytes: Seq<u8>) -> Option<(UtxoView, Seq<u8>)> {
    let id = parse_array::<32>(bytes);
    let script = parse_text(id->Some_0.1);
    let value = parse_u64(script->Some_0.1);
    let txn_hash = parse_array::<32>(value->Some_0.1);
    let index = parse_u32(txn_hash->Some_0.1);
    let created_at = parse_u32(index->Some_0.1);
    let block_height = parse_u32(created_at->Some_0.1);
    let coinbase = parse_bool(block_height->Some_0.1);
    if id is Some && script is Some && value is Some && txn_hash is Some && index is Some
        && created_at is Some && block_height is Some && coinbase is Some {
        Some(
            (
                UtxoView::Confirmed {
                    id: id->Some_0.0,
                    script_pubkey: script->Some_0.0,
                    value: value->Some_0.0,
                    txn_hash: txn_hash->Some_0.0,
                    index: index->Some_0.0,
                    created_at: created_at->Some_0.0,
                    block_height: block_height->Some_0.0,
                    is_coinbase: coinbase->Some_0.0,
                },
                coinbase->Some_0.1,
            ),
        )
    } else {
        None
    }
}

/// An output at the front of `bytes`, and the bytes after it.
pub open spec fn parse_utxo(bytes: Seq<u8>) -> Option<(UtxoView, Seq<u8>)> {
    match parse_u8(bytes) {
        None => None,
        Some((tag, body)) => if tag == 0 {
            parse_pending(body)
        } else if tag == 1 {
            parse_confirmed(body)
        } else {
            None
        },
    }
}

/// The encodings of the outputs, one after the other.
pub open spec fn enc_utxos(items: Seq<UtxoView>) -> Seq<u8>
    decreases items.len(),
{
    if items.len() == 0 {
        Seq::empty()
    } else {
        enc_utxo(items[0]) + enc_utxos(items.drop_first())
    }
}

/// `count` outputs at the front of `bytes`, and the bytes after them.
pub open spec fn parse_utxos(bytes: Seq<u8>, count: nat) -> Option<(Seq<UtxoView>, Seq<u8>)>
    decreases count,
{
    if count == 0 {
        Some((Seq::empty(), bytes))
    } else {
        match parse_utxo(bytes) {
            None => None,
            Some((first, rest)) => match parse_utxos(rest, (count - 1) as nat) {
                None => None,
                Some((others, end)) => Some((seq![first] + others, end)),
            },
        }
    }
}

/// Whether a list of outputs can be encoded.
pub open spec fn utxo_list_fits(items: Seq<UtxoView>) -> bool {
    &&& fits_u32(items.len())
    &&& forall|i: int| 0 <= i < items.len() ==> utxo_fits(#[trigger] items[i])
}

/// A list of outputs: their number, then their encodings.
pub open spec fn enc_utxo_list(items: Seq<UtxoView>) -> Seq<u8> {
    enc_len(items.len()) + enc_utxos(items)
}

/// A number, then that many outputs.
pub open spec fn parse_utxo_list(bytes: Seq<u8>) -> Option<(Seq<UtxoView>, Seq<u8>)> {
    match parse_u32(bytes) {
        None => None,
        Some((count, rest)) => parse_utxos(rest, count as nat),
    }
}

/// The number of bytes of the encoding of an output.
pub open spec fn utxo_size(u: UtxoView) -> nat {
    match u {
        UtxoView::Pending { .. } => 13,
        UtxoView::Confirmed { script_pubkey, .. } => 90 + encode_utf8(script_pubkey).len(),
    }
}

/// The number of bytes of the encodings of the outputs together.
pub open spec fn utxos_size(items: Seq<UtxoView>) -> nat
    decreases items.len(),
{
    if items.len() == 0 {
        0
    } else {
        utxo_size(items[0]) + utxos_size(items.drop_first())
    }
}

/// Decoding the encoding of an output gives the output back, and the bytes
/// that followed it.
pub proof fn lemma_utxo_round_trip(u: UtxoView, rest: Seq<u8>)
    requires
        utxo_fits(u),
    ensures
        parse_utxo(enc_utxo(u) + rest) == Some((u, rest)),
{
    match u {
        UtxoView::Pending { value, index } => {
            let t2 = u32_le(index) + rest;
            let t1 = u64_le(value) + t2;
            assert(enc_utxo(u) + rest =~= seq![0u8] + t1);
            assert((seq![0u8] + t1).skip(1) =~= t1);
            lemma_u64_round_trip(value, t2);
            lemma_u32_round_trip(index, rest);
        },
        UtxoView::Confirmed {
            id,
            script_pubkey,
            value,
            txn_hash,
            index,
            created_at,
            block_height,
            is_coinbase,
        } => {
            let t8 = enc_bool(is_coinbase) + rest;
            let t7 = u32_le(block_height) + t8;
            let t6 = u32_le(created_at) + t7;
            let t5 = u32_le(index) + t6;
            let t4 = txn_hash@ + t5;
            let t3 = u64_le(value) + t4;
            let t2 = enc_text(script_pubkey) + t3;
            let t1 = id@ + t2;
            assert(enc_utxo(u) + rest =~= seq![1u8] + t1);
            assert((seq![1u8] + t1).skip(1) =~= t1);
            lemma_array_round_trip::<32>(id, t2);
            lemma_text_round_trip(script_pubkey, t3);
            lemma_u64_round_trip(value, t4);
            lemma_array_round_trip::<32>(txn_hash, t5);
            lemma_u32_round_trip(index, t6);
            lemma_u32_round_trip(created_at, t7);
            lemma_u32_round_trip(block_height, t8);
            lemma_bool_round_trip(is_coinbase, rest);
        },
    }
}

/// Decoding the encodings of outputs gives the outputs back.
pub proof fn lemma_utxos_round_trip(items: Seq<UtxoView>, rest: Seq<u8>)
    requires
        forall|i: int| 0 <= i < items.len() ==> utxo_fits(#[trigger] items[i]),
    ensures
        parse_utxos(enc_utxos(items) + rest, items.len()) == Some((items, rest)),
    decreases items.len(),
{
    if items.len() == 0 {
        assert(enc_utxos(items) + rest =~= rest);
        assert(items =~= Seq::<UtxoView>::empty());
    } else {
        let tail = items.drop_first();
        lemma_concat_assoc(enc_utxo(items[0]), enc_utxos(tail), rest);
        lemma_utxo_round_trip(items[0], enc_utxos(tail) + rest);
        assert forall|i: int| 0 <= i < tail.len() implies utxo_fits(#[trigger] tail[i]) by {
            assert(tail[i] == items[i + 1]);
        }
        lemma_utxos_round_trip(tail, rest);
        assert(seq![items[0]] + tail =~= items);
    }
}

/// Decoding the encoding of a list of outputs gives the list back.
pub proof fn lemma_utxo_list_round_trip(items: Seq<UtxoView>, rest: Seq<u8>)
    requires
        utxo_list_fits(items),
    ensures
        parse_utxo_list(enc_utxo_list(items) + rest) == Some((items, rest)),
{
    assert(enc_utxo_list(items) + rest =~= enc_len(items.len()) + (enc_utxos(items) + rest));
    lemma_len_round_trip(items.len(), enc_utxos(items) + rest);
    lemma_utxos_round_trip(items, rest);
}

/// The encoding of an output has `utxo_size` bytes.
pub proof fn lemma_utxo_size(u: UtxoView)
    ensures
        enc_utxo(u).len() == utxo_size(u),
{
    crate::bytes::lemma_scalar_lengths();
    broadcast use vstd::array::array_len_matches_n;

}

/// The encodings of outputs have `utxos_size` bytes together.
pub proof fn lemma_utxos_size(items: Seq<UtxoView>)
    ensures
        enc_utxos(items).len() == utxos_size(items),
    decreases items.len(),
{
    if items.len() > 0 {
        lemma_utxo_size(items[0]);
        lemma_utxos_size(items.drop_first());
    }
}

/// Appends the encoding of `u` to `out`, when it can be encoded.
pub fn write_utxo(out: &mut Vec<u8>, u: &UTXO) -> (ok: bool)
    ensures
        ok == utxo_fits(u@),
        ok ==> final(out)@ == old(out)@ + enc_utxo(u@),
{
    match u {
        UTXO::Pending { value, index } => {
            out.push(0u8);
            append_u64_le(out, *value);
            append_u32_le(out, *index);
            assert(out@ =~= old(out)@ + enc_utxo(u@));
            true
        },
        UTXO::Confirmed {
            id,
            script_pubkey,
            value,
            txn_hash,
            index,
            created_at,
            block_height,
            is_coinbase,
        } => {
            out.push(1u8);
            append_bytes(out, id);
            if !write_text(out, script_pubkey.as_str()) {
                return false;
            }
            append_u64_le(out, *value);
            append_bytes(out, txn_hash);
            append_u32_le(out, *index);
            append_u32_le(out, *created_at);
            append_u32_le(out, *block_height);
            write_bool(out, *is_coinbase);
            assert(out@ =~= old(out)@ + enc_utxo(u@));
            true
        },
    }
}

/// Reads an output that begins at `pos`.
pub fn read_utxo(bytes: &[u8], pos: usize) -> (r: Option<(UTXO, usize)>)
    requires
        pos <= bytes@.len(),
    ensures
        match parse_utxo(bytes@.skip(pos as int)) {
            None => r is None,
            Some((u, rest)) => r is Some && r->Some_0.0@ == u && pos <= r->Some_0.1
                <= bytes@.len() && bytes@.skip(r->Some_0.1 as int) == rest,
        },
{
    let (tag, pos0) = match read_u8(bytes, pos) {
        Some(pair) => pair,
        None => { return None; },
    };
    if tag == 0 {
        let (value, pos1) = match read_u64(bytes, pos0) {
            Some(pair) => pair,
            None => { return None; },
        };
        let (index, pos2) = match read_u32(bytes, pos1) {
            Some(pair) => pair,
            None => { return None; },
        };
        Some((UTXO::Pending { value, index }, pos2))
    } else if tag == 1 {
        let (id, pos1) = match read_digest(bytes, pos0) {
            Some(pair) => pair,
            None => { return None; },
        };
        let (script_pubkey, pos2) = match read_text(bytes, pos1) {
            Some(pair) => pair,
            None => { return None; },
        };
        let (value, pos3) = match read_u64(bytes, pos2) {
            Some(pair) => pair,
            None => { return None; },
        };
        let (txn_hash, pos4) = match read_digest(bytes, pos3) {
            Some(pair) => pair,
            None => { return None; },
        };
        let (index, pos5) = match read_u32(bytes, pos4) {
            Some(pair) => pair,
            None => { return None; },
        };
        let (created_at, pos6) = match read_u32(bytes, pos5) {
            Some(pair) => pair,
            None => { return None; },
        };
        let (block_height, pos7) = match read_u32(bytes, pos6) {
            Some(pair) => pair,
            None => { return None; },
        };
        let (is_coinbase, pos8) = match read_bool(bytes, pos7) {
            Some(pair) => pair,
            None => { return None; },
        };
        Some(
            (
                UTXO::Confirmed {
                    id,
                    script_pubkey,
                    value,
                    txn_hash,
                    index,
                    created_at,
                    block_height,
                    is_coinbase,
                },
                pos8,
            ),
        )
    } else {
        None
    }
}

/// Appends the encoding of the list `items` to `out`, when it can be
/// encoded.
pub fn write_utxo_list(out: &mut Vec<u8>, items: &Vec<UTXO>) -> (ok: bool)
    ensures
        ok == utxo_list_fits(utxo_views(items@)),
        ok ==> final(out)@ == old(out)@ + enc_utxo_list(utxo_views(items@)),
{
    if !write_len(out, items.len()) {
        return false;
    }
    let ghost all = utxo_views(items@);
    let ghost base = out@;
    let mut i: usize = 0;
    assert(all.skip(0) =~= all);
    while i < items.len()
        invariant
            i <= items@.len(),
            all == utxo_views(items@),
            base == old(out)@ + enc_len(all.len()),
            forall|j: int| 0 <= j < i ==> utxo_fits(#[trigger] all[j]),
            out@ + enc_utxos(all.skip(i as int)) == base + enc_utxos(all),
        decreases items@.len() - i,
    {
        let ghost before = out@;
        if !write_utxo(out, &items[i]) {
            assert(!utxo_fits(all[i as int]));
            return false;
        }
        proof {
            let rest = all.skip(i as int);
            assert(rest[0] == items@[i as int]@);
            assert(rest.drop_first() =~= all.skip(i + 1));
            assert(out@ + enc_utxos(all.skip(i + 1)) =~= before + enc_utxos(rest));
        }
        i += 1;
    }
    assert(all.skip(all.len() as int) =~= Seq::<UtxoView>::empty());
    assert(out@ =~= old(out)@ + enc_utxo_list(all));
    true
}

/// Reads a list of outputs that begins at `pos`.
pub fn read_utxo_list(bytes: &[u8], pos: usize) -> (r: Option<(Vec<UTXO>, usize)>)
    requires
        pos <= bytes@.len(),
    ensures
        match parse_utxo_list(bytes@.skip(pos as int)) {
            None => r is None,
            Some((items, rest)) => r is Some && utxo_views(r->Some_0.0@) == items && pos
                <= r->Some_0.1 <= bytes@.len() && bytes@.skip(r->Some_0.1 as int) == rest,
        },
{
    let (count, start) = match read_u32(bytes, pos) {
        Some(pair) => pair,
        None => { return None; },
    };
    let mut items: Vec<UTXO> = Vec::new();
    let mut at = start;
    let mut i: u32 = 0;
    let ghost whole = parse_utxos(bytes@.skip(start as int), count as nat);
    assert(utxo_views(items@) =~= Seq::<UtxoView>::empty());
    assert(extend_parse(
        utxo_views(items@),
        parse_utxos(bytes@.skip(at as int), (count - i) as nat),
    ) =~= whole) by {
        let more = parse_utxos(bytes@.skip(at as int), (count - i) as nat);
        if more is Some {
            assert(Seq::<UtxoView>::empty() + more->Some_0.0 =~= more->Some_0.0);
        }
    }
    while i < count
        invariant
            i <= count,
            start <= at <= bytes@.len(),
            whole == parse_utxo_list(bytes@.skip(pos as int)),
            extend_parse(
                utxo_views(items@),
                parse_utxos(bytes@.skip(at as int), (count - i) as nat),
            ) == whole,
        decreases count - i,
    {
        let ghost done = utxo_views(items@);
        let (item, next) = match read_utxo(bytes, at) {
            Some(pair) => pair,
            None => { return None; },
        };
        proof {
            let more = parse_utxos(bytes@.skip(next as int), (count - i - 1) as nat);
            if more is Some {
                assert(done + (seq![item@] + more->Some_0.0) =~= done.push(item@)
                    + more->Some_0.0);
            }
        }
        items.push(item);
        assert(utxo_views(items@) =~= done.push(item@));
        at = next;
        i += 1;
    }
    assert(utxo_views(items@) + Seq::<UtxoView>::empty() =~= utxo_views(items@));
    Some((items, at))
}

impl UTXO {
    /// The canonical encoding of the output. An output whose script is too
    /// long for a 32-bit length gives a serialization error.
    pub fn encode(&self) -> (r: Result<Vec<u8>, Error>)
        ensures
            utxo_fits(self@) ==> r is Ok && r->Ok_0@ == enc_utxo(self@),
            !utxo_fits(self@) ==> r == Err::<Vec<u8>, Error>(codec_error()),
    {
        let mut out: Vec<u8> = Vec::new();
        if write_utxo(&mut out, self) {
            assert(out@ =~= enc_utxo(self@));
            Ok(out)
        } else {
            Err(Error::Protocol(ProtocolError::SerializationError))
        }
    }

    /// The output that `bytes` encode. Bytes that are no encoding of an
    /// output, or that go on after one, give a serialization error.
    pub fn decode(bytes: &[u8]) -> (r: Result<UTXO, Error>)
        ensures
            match parse_utxo(bytes@) {
                Some((u, rest)) => if rest.len() == 0 {
                    r is Ok && r->Ok_0@ == u
                } else {
                    r == Err::<UTXO, Error>(codec_error())
                },
                None => r == Err::<UTXO, Error>(codec_error()),
            },
    {
        assert(bytes@.skip(0) =~= bytes@);
        match read_utxo(bytes, 0) {
            Some((u, end)) => {
                if end == bytes.len() {
                    Ok(u)
                } else {
                    Err(Error::Protocol(ProtocolError::SerializationError))
                }
            },
            None => Err(Error::Protocol(ProtocolError::SerializationError)),
        }
    }
}

/// Decoding the encoding of an output gives the output back.
pub proof fn lemma_utxo_decode_encode(u: UtxoView)
    requires
        utxo_fits(u),
    ensures
        parse_utxo(enc_utxo(u)) == Some((u, Seq::<u8>::empty())),
{
    lemma_utxo_round_trip(u, Seq::empty());
    assert(enc_utxo(u) + Seq::<u8>::empty() =~= enc_utxo(u));
}

} // verus!
