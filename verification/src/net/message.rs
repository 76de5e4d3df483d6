//! The messages of the node and their canonical encoding.

use vstd::prelude::*;
use vstd::string::*;
use crate::bytes::{append_u64_le, u64_le};
use vstd::utf8::encode_utf8;
use crate::errors::{Error, ProtocolError};
use crate::codec::{
    codec_error, enc_len, enc_text, extend_parse, fits_u32, lemma_concat_assoc,
    lemma_len_round_trip, lemma_text_round_trip, lemma_u64_round_trip, parse_text, parse_u32,
    parse_u64, parse_u8, read_text, read_u32, read_u64, read_u8, write_len, write_text,
};
use crate::transaction::{Transaction, TransactionView};
use crate::transaction_codec::{
    enc_transaction, lemma_transaction_round_trip, parse_transaction, read_transaction,
    txn_fits, write_transaction,
};
use crate::block::{Block, BlockView};
use crate::block_codec::{
    block_fits, enc_block, lemma_block_round_trip, parse_block, read_block, write_block,
};

verus! {

/// What one node tells another.
#[allow(unused)]
#[derive(Debug, Clone, PartialEq, Eq)]
pub enum Message {
    PaymentTransaction(Transaction),
    Utxo(Vec<String>),
    BlockProposal(Block),
    BlockConfirmation(String),
    PeerIntroduction(String),
    BlockRequest(u64),
    BlockResponse(Block),
    InvalidTransactionAlert(String),
    Ping,
}

/// The mathematical value of a message.
pub enum MessageView {
    PaymentTransaction(TransactionView),
    Utxo(Seq<Seq<char>>),
    BlockProposal(BlockView),
    BlockConfirmation(Seq<char>),
    PeerIntroduction(Seq<char>),
    BlockRequest(u64),
    BlockResponse(BlockView),
    InvalidTransactionAlert(Seq<char>),
    Ping,
}

/// The texts of a sequence of strings.
pub open spec fn string_views(items: Seq<String>) -> Seq<Seq<char>> {
    Seq::new(items.len(), |i: int| items[i]@)
}

impl View for Message {
    type V = MessageView;

    open spec fn view(&self) -> MessageView {
        match *self {
            Message::PaymentTransaction(t) => MessageView::PaymentTransaction(t@),
            Message::Utxo(items) => MessageView::Utxo(string_views(items@)),
            Message::BlockProposal(b) => MessageView::BlockProposal(b@),
            Message::BlockConfirmation(text) => MessageView::BlockConfirmation(text@),
            Message::PeerIntroduction(text) => MessageView::PeerIntroduction(text@),
            Message::BlockRequest(index) => MessageView::BlockRequest(index),
            Message::BlockResponse(b) => MessageView::BlockResponse(b@),
            Message::InvalidTransactionAlert(text) => MessageView::InvalidTransactionAlert(text@),
            Message::Ping => MessageView::Ping,
        }
    }
}

/// The encodings of the texts, one after the other.
pub open spec fn enc_texts(items: Seq<Seq<char>>) -> Seq<u8>
    decreases items.len(),
{
    if items.len() == 0 {
        Seq::empty()
    } else {
        enc_text(items[0]) + enc_texts(items.drop_first())
    }
}

/// `count` texts at the front of `bytes`, and the bytes after them.
pub open spec fn parse_texts(bytes: Seq<u8>, count: nat) -> Option<(Seq<Seq<char>>, Seq<u8>)>
    decreases count,
{
    if count == 0 {
        Some((Seq::empty(), bytes))
    } else {
        match parse_text(bytes) {
            None => None,
            Some((first, rest)) => match parse_texts(rest, (count - 1) as nat) {
                None => None,
                Some((others, end)) => Some((seq![first] + others, end)),
            },
        }
    }
}

/// Whether a text can be encoded.
pub open spec fn text_fits(text: Seq<char>) -> bool {
    fits_u32(encode_utf8(text).len())
}

/// Whether a list of texts can be encoded.
pub open spec fn text_list_fits(items: Seq<Seq<char>>) -> bool {
    &&& fits_u32(items.len())
    &&& forall|i: int| 0 <= i < items.len() ==> text_fits(#[trigger] items[i])
}

/// A list of texts: their number, then their encodings.
pub open spec fn enc_text_list(items: Seq<Seq<char>>) -> Seq<u8> {
    enc_len(items.len()) + enc_texts(items)
}

/// A number, then that many texts.
pub open spec fn parse_text_list(bytes: Seq<u8>) -> Option<(Seq<Seq<char>>, Seq<u8>)> {
    match parse_u32(bytes) {
        None => None,
        Some((count, rest)) => parse_texts(rest, count as nat),
    }
}

/// Whether the message can be encoded.
pub open spec fn message_fits(m: MessageView) -> bool {
    match m {
        MessageView::PaymentTransaction(t) => txn_fits(t),
        MessageView::Utxo(items) => text_list_fits(items),
        MessageView::BlockProposal(b) => block_fits(b),
        MessageView::BlockConfirmation(text) => text_fits(text),
        MessageView::PeerIntroduction(text) => text_fits(text),
        MessageView::BlockRequest(_) => true,
        MessageView::BlockResponse(b) => block_fits(b),
        MessageView::InvalidTransactionAlert(text) => text_fits(text),
        MessageView::Ping => true,
    }
}

/// The encoding of a message: the number of its variant in one byte, from
/// 0 for a payment to 8 for a ping, then what the variant carries.
pub open spec fn enc_message(m: MessageView) -> Seq<u8> {
    match m {
        MessageView::PaymentTransaction(t) => seq![0u8] + enc_transaction(t),
        MessageView::Utxo(items) => seq![1u8] + enc_text_list(items),
        MessageView::BlockProposal(b) => seq![2u8] + enc_block(b),
        MessageView::BlockConfirmation(text) => seq![3u8] + enc_text(text),
        MessageView::PeerIntroduction(text) => seq![4u8] + enc_text(text),
        MessageView::BlockRequest(index) => seq![5u8] + u64_le(index),
        MessageView::BlockResponse(b) => seq![6u8] + enc_block(b),
        MessageView::InvalidTransactionAlert(text) => seq![7u8] + enc_text(text),
        MessageView::Ping => seq![8u8],
    }
}

/// What a parse of a variant's content gives as a message.
pub open spec fn wrap<T>(parsed: Option<(T, Seq<u8>)>, make: spec_fn(T) -> MessageView) -> Option<
    (MessageView, Seq<u8>),
> {
    match parsed {
        None => None,
        Some((value, rest)) => Some((make(value), rest)),
    }
}

/// A message at the front of `bytes`, and the bytes after it.
pub open spec fn parse_message(bytes: Seq<u8>) -> Option<(MessageView, Seq<u8>)> {
    match parse_u8(bytes) {
        None => None,
        Some((tag, body)) => if tag == 0 {
            wrap(parse_transaction(body), |t: TransactionView| MessageView::PaymentTransaction(t))
        } else if tag == 1 {
            wrap(parse_text_list(body), |items: Seq<Seq<char>>| MessageView::Utxo(items))
        } else if tag == 2 {
            wrap(parse_block(body), |b: BlockView| MessageView::BlockProposal(b))
        } else if tag == 3 {
            wrap(parse_text(body), |text: Seq<char>| MessageView::BlockConfirmation(text))
        } else if tag == 4 {
            wrap(parse_text(body), |text: Seq<char>| MessageView::PeerIntroduction(text))
        } else if tag == 5 {
            wrap(parse_u64(body), |index: u64| MessageView::BlockRequest(index))
        } else if tag == 6 {
            wrap(parse_block(body), |b: BlockView| MessageView::BlockResponse(b))
        } else if tag == 7 {
            wrap(parse_text(body), |text: Seq<char>| MessageView::InvalidTransactionAlert(text))
        } else if tag == 8 {
            Some((MessageView::Ping, body))
        } else {
            None
        },
    }
}

/// What decoding a whole byte string gives: the message that it encodes,
/// or nothing when it encodes none or goes on after one.
pub open spec fn decoded_message(bytes: Seq<u8>) -> Option<MessageView> {
    match parse_message(bytes) {
        Some((m, rest)) => if rest.len() == 0 {
            Some(m)
        } else {
            None
        },
        None => None,
    }
}

/// Decoding the encodings of texts gives the texts back.
pub proof fn lemma_texts_round_trip(items: Seq<Seq<char>>, rest: Seq<u8>)
    requires
        forall|i: int| 0 <= i < items.len() ==> text_fits(#[trigger] items[i]),
    ensures
        parse_texts(enc_texts(items) + rest, items.len()) == Some((items, rest)),
    decreases items.len(),
{
    if items.len() == 0 {
        assert(enc_texts(items) + rest =~= rest);
        assert(items =~= Seq::<Seq<char>>::empty());
    } else {
        let tail = items.drop_first();
        lemma_concat_assoc(enc_text(items[0]), enc_texts(tail), rest);
        assert(text_fits(items[0]));
        lemma_text_round_trip(items[0], enc_texts(tail) + rest);
        assert forall|i: int| 0 <= i < tail.len() implies text_fits(#[trigger] tail[i]) by {
            assert(tail[i] == items[i + 1]);
        }
        lemma_texts_round_trip(tail, rest);
        assert(seq![items[0]] + tail =~= items);
    }
}

/// Decoding the encoding of a list of texts gives the list back.
pub proof fn lemma_text_list_round_trip(items: Seq<Seq<char>>, rest: Seq<u8>)
    requires
        text_list_fits(items),
    ensures
        parse_text_list(enc_text_list(items) + rest) == Some((items, rest)),
{
    assert(enc_text_list(items) + rest =~= enc_len(items.len()) + (enc_texts(items) + rest));
    lemma_len_round_trip(items.len(), enc_texts(items) + rest);
    lemma_texts_round_trip(items, rest);
}

/// A tag in front of a body is read as that tag, and leaves the body.
proof fn lemma_tagged(tag: u8, body: Seq<u8>, rest: Seq<u8>)
    ensures
        parse_u8(seq![tag] + body + rest) == Some((tag, body + rest)),
{
    assert((seq![tag] + body + rest).skip(1) =~= body + rest);
}

/// Decoding the encoding of a message gives the message back, and the
/// bytes that followed it.
pub proof fn lemma_message_round_trip(m: MessageView, rest: Seq<u8>)
    requires
        message_fits(m),
    ensures
        parse_message(enc_message(m) + rest) == Some((m, rest)),
{
    match m {
        MessageView::PaymentTransaction(t) => {
            lemma_tagged(0, enc_transaction(t), rest);
            lemma_transaction_round_trip(t, rest);
        },
        MessageView::Utxo(items) => {
            lemma_tagged(1, enc_text_list(items), rest);
            lemma_text_list_round_trip(items, rest);
        },
        MessageView::BlockProposal(b) => {
            lemma_tagged(2, enc_block(b), rest);
            lemma_block_round_trip(b, rest);
        },
        MessageView::BlockConfirmation(text) => {
            lemma_tagged(3, enc_text(text), rest);
            lemma_text_round_trip(text, rest);
        },
        MessageView::PeerIntroduction(text) => {
            lemma_tagged(4, enc_text(text), rest);
            lemma_text_round_trip(text, rest);
        },
        MessageView::BlockRequest(index) => {
            lemma_tagged(5, u64_le(index), rest);
            lemma_u64_round_trip(index, rest);
        },
        MessageView::BlockResponse(b) => {
            lemma_tagged(6, enc_block(b), rest);
            lemma_block_round_trip(b, rest);
        },
        MessageView::InvalidTransactionAlert(text) => {
            lemma_tagged(7, enc_text(text), rest);
            lemma_text_round_trip(text, rest);
        },
        MessageView::Ping => {
            assert((seq![8u8] + rest).skip(1) =~= rest);
        },
    }
}

/// Decoding the whole encoding of a message gives the message back.
pub proof fn lemma_message_decode_encode(m: MessageView)
    requires
        message_fits(m),
    ensures
        decoded_message(enc_message(m)) == Some(m),
{
    lemma_message_round_trip(m, Seq::empty());
    assert(enc_message(m) + Seq::<u8>::empty() =~= enc_message(m));
}

/// Appends the encoding of the list `items` to `out`, when it can be
/// encoded.
fn write_text_list(out: &mut Vec<u8>, items: &Vec<String>) -> (ok: bool)
    ensures
        ok == text_list_fits(string_views(items@)),
        ok ==> final(out)@ == old(out)@ + enc_text_list(string_views(items@)),
{
    if !write_len(out, items.len()) {
        return false;
    }
    let ghost all = string_views(items@);
    let ghost base = out@;
    let mut i: usize = 0;
    assert(all.skip(0) =~= all);
    while i < items.len()
        invariant
            i <= items@.len(),
            all == string_views(items@),
            base == old(out)@ + enc_len(all.len()),
            forall|j: int| 0 <= j < i ==> text_fits(#[trigger] all[j]),
            out@ + enc_texts(all.skip(i as int)) == base + enc_texts(all),
        decreases items@.len() - i,
    {
        let ghost before = out@;
        let ghost rest = all.skip(i as int);
        assert(rest[0] == items@[i as int]@);
        if !write_text(out, items[i].as_str()) {
            assert(!text_fits(all[i as int]));
            return false;
        }
        proof {
            assert(rest.drop_first() =~= all.skip(i + 1));
            assert(out@ + enc_texts(all.skip(i + 1)) =~= before + enc_texts(rest));
        }
        i += 1;
    }
    assert(all.skip(all.len() as int) =~= Seq::<Seq<char>>::empty());
    assert(out@ =~= old(out)@ + enc_text_list(all));
    true
}

/// Reads a list of texts that begins at `pos`.
fn read_text_list(bytes: &[u8], pos: usize) -> (r: Option<(Vec<String>, usize)>)
    requires
        pos <= bytes@.len(),
    ensures
        match parse_text_list(bytes@.skip(pos as int)) {
            None => r is None,
            Some((items, rest)) => r is Some && string_views(r->Some_0.0@) == items && pos
                <= r->Some_0.1 <= bytes@.len() && bytes@.skip(r->Some_0.1 as int) == rest,
        },
{
    let (count, start) = match read_u32(bytes, pos) {
        Some(pair) => pair,
        None => { return None; },
    };
    let mut items: Vec<String> = Vec::new();
    let mut at = start;
    let mut i: u32 = 0;
    let ghost whole = parse_texts(bytes@.skip(start as int), count as nat);
    assert(string_views(items@) =~= Seq::<Seq<char>>::empty());
    assert(extend_parse(
        string_views(items@),
        parse_texts(bytes@.skip(at as int), (count - i) as nat),
    ) =~= whole) by {
        let more = parse_texts(bytes@.skip(at as int), (count - i) as nat);
        if more is Some {
            assert(Seq::<Seq<char>>::empty() + more->Some_0.0 =~= more->Some_0.0);
        }
    }
    while i < count
        invariant
            i <= count,
            start <= at <= bytes@.len(),
            whole == parse_text_list(bytes@.skip(pos as int)),
            extend_parse(
                string_views(items@),
                parse_texts(bytes@.skip(at as int), (count - i) as nat),
            ) == whole,
        decreases count - i,
    {
        let ghost done = string_views(items@);
        let (item, next) = match read_text(bytes, at) {
            Some(pair) => pair,
            None => { return None; },
        };
        proof {
            let more = parse_texts(bytes@.skip(next as int), (count - i - 1) as nat);
            if more is Some {
                assert(done + (seq![item@] + more->Some_0.0) =~= done.push(item@)
                    + more->Some_0.0);
            }
        }
        items.push(item);
        assert(string_views(items@) =~= done.push(item@));
        at = next;
        i += 1;
    }
    assert(string_views(items@) + Seq::<Seq<char>>::empty() =~= string_views(items@));
    Some((items, at))
}

/// Appends the encoding of `message` to `out`, when it can be encoded.
pub fn write_message(out: &mut Vec<u8>, message: &Message) -> (ok: bool)
    ensures
        ok == message_fits(message@),
        ok ==> final(out)@ == old(out)@ + enc_message(message@),
{
    let ok = match message {
        Message::PaymentTransaction(t) => {
            out.push(0u8);
            write_transaction(out, t)
        },
        Message::Utxo(items) => {
            out.push(1u8);
            write_text_list(out, items)
        },
        Message::BlockProposal(b) => {
            out.push(2u8);
            write_block(out, b)
        },
        Message::BlockConfirmation(text) => {
            out.push(3u8);
            write_text(out, text.as_str())
        },
        Message::PeerIntroduction(text) => {
            out.push(4u8);
            write_text(out, text.as_str())
        },
        Message::BlockRequest(index) => {
            out.push(5u8);
            append_u64_le(out, *index);
            true
        },
        Message::BlockResponse(b) => {
            out.push(6u8);
            write_block(out, b)
        },
        Message::InvalidTransactionAlert(text) => {
            out.push(7u8);
            write_text(out, text.as_str())
        },
        Message::Ping => {
            out.push(8u8);
            true
        },
    };
    if ok {
        assert(out@ =~= old(out)@ + enc_message(message@));
    }
    ok
}

/// Reads a message that begins at `pos`.
pub fn read_message(bytes: &[u8], pos: usize) -> (r: Option<(Message, usize)>)
    requires
        pos <= bytes@.len(),
    ensures
        match parse_message(bytes@.skip(pos as int)) {
            None => r is None,
            Some((m, rest)) => r is Some && r->Some_0.0@ == m && pos <= r->Some_0.1
                <= bytes@.len() && bytes@.skip(r->Some_0.1 as int) == rest,
        },
{
    let (tag, pos0) = match read_u8(bytes, pos) {
        Some(pair) => pair,
        None => { return None; },
    };
    if tag == 0 {
        match read_transaction(bytes, pos0) {
            Some((t, end)) => Some((Message::PaymentTransaction(t), end)),
            None => None,
        }
    } else if tag == 1 {
        match read_text_list(bytes, pos0) {
            Some((items, end)) => Some((Message::Utxo(items), end)),
            None => None,
        }
    } else if tag == 2 {
        match read_block(bytes, pos0) {
            Some((b, end)) => Some((Message::BlockProposal(b), end)),
            None => None,
        }
    } else if tag == 3 {
        match read_text(bytes, pos0) {
            Some((text, end)) => Some((Message::BlockConfirmation(text), end)),
            None => None,
        }
    } else if tag == 4 {
        match read_text(bytes, pos0) {
            Some((text, end)) => Some((Message::PeerIntroduction(text), end)),
            None => None,
        }
    } else if tag == 5 {
        match read_u64(bytes, pos0) {
            Some((index, end)) => Some((Message::BlockRequest(index), end)),
            None => None,
        }
    } else if tag == 6 {
        match read_block(bytes, pos0) {
            Some((b, end)) => Some((Message::BlockResponse(b), end)),
            None => None,
        }
    } else if tag == 7 {
        match read_text(bytes, pos0) {
            Some((text, end)) => Some((Message::InvalidTransactionAlert(text), end)),
            None => None,
        }
    } else if tag == 8 {
        Some((Message::Ping, pos0))
    } else {
        None
    }
}

/// The message that `message` encodes. Bytes that are no encoding of a
/// message, or that go on after one, give a serialization error.
pub fn deserialize(message: &[u8]) -> (r: Result<Message, Error>)
    ensures
        match decoded_message(message@) {
            Some(m) => r is Ok && r->Ok_0@ == m,
            None => r == Err::<Message, Error>(codec_error()),
        },
{
    assert(message@.skip(0) =~= message@);
    match read_message(message, 0) {
        Some((m, end)) => {
            if end == message.len() {
                Ok(m)
            } else {
                Err(Error::Protocol(ProtocolError::SerializationError))
            }
        },
        None => Err(Error::Protocol(ProtocolError::SerializationError)),
    }
}

/// Appends the encoding of `node_message` to `writer`. A message with a
/// list or a text too long for a 32-bit length gives a serialization error.
pub fn serialize(node_message: &Message, writer: &mut Vec<u8>) -> (r: Result<(), Error>)
    ensures
        message_fits(node_message@) ==> r is Ok && final(writer)@ == old(writer)@ + enc_message(
            node_message@,
        ),
        !message_fits(node_message@) ==> r == Err::<(), Error>(codec_error()),
{
    if write_message(writer, node_message) {
        Ok(())
    } else {
        Err(Error::Protocol(ProtocolError::SerializationError))
    }
}

} // verus!
