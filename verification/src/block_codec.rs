//! The canonical encoding of Merkle trees and of blocks.

use vstd::prelude::*;
use vstd::string::*;
use crate::bytes::{
    append_bytes, append_u128_le, append_u32_le, append_u64_le, u128_le, u32_le, u64_le,
};
use vstd::utf8::encode_utf8;
use crate::errors::{Error, ProtocolError};
use crate::codec::{
    codec_error, enc_text, fits_u32, lemma_array_round_trip, lemma_text_round_trip,
    lemma_u128_round_trip, lemma_u32_round_trip, lemma_u64_round_trip, parse_array, parse_text,
    parse_u128, parse_u32, parse_u64, parse_u8, read_digest, read_text, read_u128, read_u32,
    read_u64, read_u8, write_text,
};
use crate::merkle::{Node, Tree};
use crate::transaction_codec::{
    enc_txn_list, lemma_txn_list_round_trip, parse_txn_list, read_txn_list, txn_list_fits,
    write_txn_list,
};
use crate::block::{Block, BlockView};

verus! {

/// The encoding of a child: the tag 0 for none, or the tag 1 and the node.
pub open spec fn enc_child(child: Option<Box<Node>>) -> Seq<u8>
    decreases child,
{
    match child {
        None => seq![0u8],
        Some(node) => seq![1u8] + enc_node(*node),
    }
}

/// The encoding of a node: its digest, its left child and its right child.
pub open spec fn enc_node(node: Node) -> Seq<u8>
    decreases node,
{
    node.hash@ + enc_child(node.left) + enc_child(node.right)
}

/// A child at the front of `bytes`, and the bytes after it.
pub open spec fn parse_child(bytes: Seq<u8>) -> Option<(Option<Box<Node>>, Seq<u8>)>
    decreases bytes.len(), 0nat,
{
    match parse_u8(bytes) {
        None => None,
        Some((tag, body)) => if tag == 0 {
            Some((None, body))
        } else if tag == 1 {
            match parse_node(body) {
                None => None,
                Some((node, rest)) => Some((Some(Box::new(node)), rest)),
            }
        } else {
            None
        },
    }
}

/// A node at the front of `bytes`, and the bytes after it.
pub open spec fn parse_node(bytes: Seq<u8>) -> Option<(Node, Seq<u8>)>
    decreases bytes.len(), 1nat,
{
    match parse_array::<32>(bytes) {
        None => None,
        Some((hash, b1)) => if b1.len() >= bytes.len() {
            None
        } else {
            match parse_child(b1) {
                None => None,
                Some((left, b2)) => if b2.len() >= bytes.len() {
                    None
                } else {
                    match parse_child(b2) {
                        None => None,
                        Some((right, b3)) => Some((Node { hash, left, right }, b3)),
                    }
                },
            }
        },
    }
}

/// The encoding of a tree: the tag 0 for the empty tree, or the tag 1 and
/// the root.
pub open spec fn enc_tree(root: Option<Node>) -> Seq<u8> {
    match root {
        None => seq![0u8],
        Some(node) => seq![1u8] + enc_node(node),
    }
}

/// A tree at the front of `bytes`, and the bytes after it.
pub open spec fn parse_tree(bytes: Seq<u8>) -> Option<(Option<Node>, Seq<u8>)> {
    match parse_u8(bytes) {
        None => None,
        Some((tag, body)) => if tag == 0 {
            Some((None, body))
        } else if tag == 1 {
            match parse_node(body) {
                None => None,
                Some((node, rest)) => Some((Some(node), rest)),
            }
        } else {
            None
        },
    }
}

/// Decoding the encoding of a child gives the child back.
pub proof fn lemma_child_round_trip(child: Option<Box<Node>>, rest: Seq<u8>)
    ensures
        parse_child(enc_child(child) + rest) == Some((child, rest)),
        enc_child(child).len() >= 1,
    decreases child,
{
    match child {
        None => {
            assert((seq![0u8] + rest).skip(1) =~= rest);
        },
        Some(node) => {
            assert(enc_child(child) + rest =~= seq![1u8] + (enc_node(*node) + rest));
            assert((seq![1u8] + (enc_node(*node) + rest)).skip(1) =~= enc_node(*node) + rest);
            lemma_node_round_trip(*node, rest);
        },
    }
}

/// Decoding the encoding of a node gives the node back.
pub proof fn lemma_node_round_trip(node: Node, rest: Seq<u8>)
    ensures
        parse_node(enc_node(node) + rest) == Some((node, rest)),
    decreases node,
{
    let t2 = enc_child(node.right) + rest;
    let t1 = enc_child(node.left) + t2;
    assert(enc_node(node) + rest =~= node.hash@ + t1);
    lemma_array_round_trip::<32>(node.hash, t1);
    lemma_child_round_trip(node.left, t2);
    lemma_child_round_trip(node.right, rest);
}

/// Decoding the encoding of a tree gives the tree back.
pub proof fn lemma_tree_round_trip(root: Option<Node>, rest: Seq<u8>)
    ensures
        parse_tree(enc_tree(root) + rest) == Some((root, rest)),
{
    match root {
        None => {
            assert((seq![0u8] + rest).skip(1) =~= rest);
        },
        Some(node) => {
            assert(enc_tree(root) + rest =~= seq![1u8] + (enc_node(node) + rest));
            assert((seq![1u8] + (enc_node(node) + rest)).skip(1) =~= enc_node(node) + rest);
            lemma_node_round_trip(node, rest);
        },
    }
}

/// Whether the block can be encoded.
pub open spec fn block_fits(b: BlockView) -> bool {
    txn_list_fits(b.transactions) && fits_u32(encode_utf8(b.previous_hash).len())
}

/// The encoding of a block: its fields in the order of their declaration.
pub open spec fn enc_block(b: BlockView) -> Seq<u8> {
    u64_le(b.index) + u128_le(b.timestamp) + enc_txn_list(
        b.transactions,
    ) + u64_le(b.nonce) + enc_text(b.previous_hash) + b.hash@
        + u32_le(b.difficulty) + enc_tree(b.merkle_root)
}

/// A block at the front of `bytes`, and the bytes after it.
pub open spec fn parse_block(bytes: Seq<u8>) -> Option<(BlockView, Seq<u8>)> {
    let index = parse_u64(bytes);
    let timestamp = parse_u128(index->Some_0.1);
    let transactions = parse_txn_list(timestamp->Some_0.1);
    let nonce = parse_u64(transactions->Some_0.1);
    let previous_hash = parse_text(nonce->Some_0.1);
    let hash = parse_array::<32>(previous_hash->Some_0.1);
    let difficulty = parse_u32(hash->Some_0.1);
    let merkle_root = parse_tree(difficulty->Some_0.1);
    if index is Some && timestamp is Some && transactions is Some && nonce is Some
        && previous_hash is Some && hash is Some && difficulty is Some && merkle_root is Some {
        Some(
            (
                BlockView {
                    index: index->Some_0.0,
                    timestamp: timestamp->Some_0.0,
                    transactions: transactions->Some_0.0,
                    nonce: nonce->Some_0.0,
                    previous_hash: previous_hash->Some_0.0,
                    hash: hash->Some_0.0,
                    difficulty: difficulty->Some_0.0,
                    merkle_root: merkle_root->Some_0.0,
                },
                merkle_root->Some_0.1,
            ),
        )
    } else {
        None
    }
}

/// Eight byte strings and a rest, joined from the left, are the first
/// followed by the join of the others.
proof fn lemma_concat_nested(
    a: Seq<u8>,
    b: Seq<u8>,
    c: Seq<u8>,
    d: Seq<u8>,
    e: Seq<u8>,
    f: Seq<u8>,
    g: Seq<u8>,
    h: Seq<u8>,
    rest: Seq<u8>,
)
    ensures
        a + b + c + d + e + f + g + h + rest == a + (b + (c + (d + (e + (f + (g + (h
            + rest))))))),
{
    assert(a + b + c + d + e + f + g + h + rest =~= a + (b + (c + (d + (e + (f + (g + (h
        + rest))))))));
}

/// Decoding the encoding of a block gives the block back, and the bytes
/// that followed it.
pub proof fn lemma_block_round_trip(b: BlockView, rest: Seq<u8>)
    requires
        block_fits(b),
    ensures
        parse_block(enc_block(b) + rest) == Some((b, rest)),
{
    let t7 = enc_tree(b.merkle_root) + rest;
    let t6 = u32_le(b.difficulty) + t7;
    let t5 = b.hash@ + t6;
    let t4 = enc_text(b.previous_hash) + t5;
    let t3 = u64_le(b.nonce) + t4;
    let t2 = enc_txn_list(b.transactions) + t3;
    let t1 = u128_le(b.timestamp) + t2;
    let all = u64_le(b.index) + t1;
    assert(enc_block(b) + rest == all) by {
        lemma_concat_nested(
            u64_le(b.index),
            u128_le(b.timestamp),
            enc_txn_list(b.transactions),
            u64_le(b.nonce),
            enc_text(b.previous_hash),
            b.hash@,
            u32_le(b.difficulty),
            enc_tree(b.merkle_root),
            rest,
        );
    }
    assert(parse_u64(all) == Some((b.index, t1))) by {
        lemma_u64_round_trip(b.index, t1);
    }
    assert(parse_u128(t1) == Some((b.timestamp, t2))) by {
        lemma_u128_round_trip(b.timestamp, t2);
    }
    assert(parse_txn_list(t2) == Some((b.transactions, t3))) by {
        lemma_txn_list_round_trip(b.transactions, t3);
    }
    assert(parse_u64(t3) == Some((b.nonce, t4))) by {
        lemma_u64_round_trip(b.nonce, t4);
    }
    assert(parse_text(t4) == Some((b.previous_hash, t5))) by {
        lemma_text_round_trip(b.previous_hash, t5);
    }
    assert(parse_array::<32>(t5) == Some((b.hash, t6))) by {
        lemma_array_round_trip::<32>(b.hash, t6);
    }
    assert(parse_u32(t6) == Some((b.difficulty, t7))) by {
        lemma_u32_round_trip(b.difficulty, t7);
    }
    assert(parse_tree(t7) == Some((b.merkle_root, rest))) by {
        lemma_tree_round_trip(b.merkle_root, rest);
    }
}

/// Decoding the encoding of a block gives the block back.
pub proof fn lemma_block_decode_encode(b: BlockView)
    requires
        block_fits(b),
    ensures
        parse_block(enc_block(b)) == Some((b, Seq::<u8>::empty())),
{
    lemma_block_round_trip(b, Seq::empty());
    assert(enc_block(b) + Seq::<u8>::empty() =~= enc_block(b));
}

/// Appends the encoding of `child` to `out`.
fn write_child(out: &mut Vec<u8>, child: &Option<Box<Node>>)
    ensures
        final(out)@ == old(out)@ + enc_child(*child),
    decreases *child,
{
    match child {
        None => {
            out.push(0u8);
            assert(out@ =~= old(out)@ + enc_child(*child));
        },
        Some(node) => {
            out.push(1u8);
            write_node(out, node);
            assert(out@ =~= old(out)@ + enc_child(*child));
        },
    }
}

/// Appends the encoding of `node` to `out`.
pub fn write_node(out: &mut Vec<u8>, node: &Node)
    ensures
        final(out)@ == old(out)@ + enc_node(*node),
    decreases *node,
{
    append_bytes(out, &node.hash);
    write_child(out, &node.left);
    write_child(out, &node.right);
    assert(out@ =~= old(out)@ + enc_node(*node));
}

/// Reads a child that begins at `pos`.
fn read_child(bytes: &[u8], pos: usize) -> (r: Option<(Option<Box<Node>>, usize)>)
    requires
        pos <= bytes@.len(),
    ensures
        match parse_child(bytes@.skip(pos as int)) {
            None => r is None,
            Some((child, rest)) => r is Some && r->Some_0.0 == child && pos < r->Some_0.1
                <= bytes@.len() && bytes@.skip(r->Some_0.1 as int) == rest,
        },
    decreases bytes@.len() - pos, 0nat,
{
    let (tag, pos0) = match read_u8(bytes, pos) {
        Some(pair) => pair,
        None => { return None; },
    };
    if tag == 0 {
        Some((None, pos0))
    } else if tag == 1 {
        match read_node(bytes, pos0) {
            Some((node, pos1)) => Some((Some(Box::new(node)), pos1)),
            None => None,
        }
    } else {
        None
    }
}

/// Reads a node that begins at `pos`.
pub fn read_node(bytes: &[u8], pos: usize) -> (r: Option<(Node, usize)>)
    requires
        pos <= bytes@.len(),
    ensures
        match parse_node(bytes@.skip(pos as int)) {
            None => r is None,
            Some((node, rest)) => r is Some && r->Some_0.0 == node && pos < r->Some_0.1
                <= bytes@.len() && bytes@.skip(r->Some_0.1 as int) == rest,
        },
    decreases bytes@.len() - pos, 1nat,
{
    let (hash, pos1) = match read_digest(bytes, pos) {
        Some(pair) => pair,
        None => { return None; },
    };
    let (left, pos2) = match read_child(bytes, pos1) {
        Some(pair) => pair,
        None => { return None; },
    };
    let (right, pos3) = match read_child(bytes, pos2) {
        Some(pair) => pair,
        None => { return None; },
    };
    Some((Node { hash, left, right }, pos3))
}

impl Tree {
    /// Appends the encoding of the tree to `out`.
    pub fn write_to(&self, out: &mut Vec<u8>)
        ensures
            final(out)@ == old(out)@ + enc_tree(self.root()),
    {
        match self.root_node() {
            None => {
                out.push(0u8);
                assert(out@ =~= old(out)@ + enc_tree(self.root()));
            },
            Some(node) => {
                out.push(1u8);
                write_node(out, node);
                assert(out@ =~= old(out)@ + enc_tree(self.root()));
            },
        }
    }

    /// Reads a tree that begins at `pos`.
    pub fn read_from(bytes: &[u8], pos: usize) -> (r: Option<(Tree, usize)>)
        requires
            pos <= bytes@.len(),
        ensures
            match parse_tree(bytes@.skip(pos as int)) {
                None => r is None,
                Some((root, rest)) => r is Some && r->Some_0.0.root() == root && pos
                    <= r->Some_0.1 <= bytes@.len() && bytes@.skip(r->Some_0.1 as int) == rest,
            },
    {
        let (tag, pos0) = match read_u8(bytes, pos) {
            Some(pair) => pair,
            None => { return None; },
        };
        if tag == 0 {
            Some((Tree::new(), pos0))
        } else if tag == 1 {
            match read_node(bytes, pos0) {
                Some((node, pos1)) => Some((Tree::with_root(node), pos1)),
                None => None,
            }
        } else {
            None
        }
    }
}

/// Appends the encoding of `block` to `out`, when it can be encoded.
pub fn write_block(out: &mut Vec<u8>, block: &Block) -> (ok: bool)
    ensures
        ok == block_fits(block@),
        ok ==> final(out)@ == old(out)@ + enc_block(block@),
{
    append_u64_le(out, block.index());
    append_u128_le(out, block.timestamp());
    if !write_txn_list(out, block.transactions()) {
        return false;
    }
    append_u64_le(out, block.nonce());
    if !write_text(out, block.previous_hash().as_str()) {
        return false;
    }
    let hash = block.hash();
    append_bytes(out, &hash);
    append_u32_le(out, block.difficulty());
    block.merkle_root().write_to(out);
    assert(out@ =~= old(out)@ + enc_block(block@));
    true
}

/// Reads a block that begins at `pos`.
pub fn read_block(bytes: &[u8], pos: usize) -> (r: Option<(Block, usize)>)
    requires
        pos <= bytes@.len(),
    ensures
        match parse_block(bytes@.skip(pos as int)) {
            None => r is None,
            Some((b, rest)) => r is Some && r->Some_0.0@ == b && pos <= r->Some_0.1
                <= bytes@.len() && bytes@.skip(r->Some_0.1 as int) == rest,
        },
{
    let (index, pos1) = match read_u64(bytes, pos) {
        Some(pair) => pair,
        None => { return None; },
    };
    let (timestamp, pos2) = match read_u128(bytes, pos1) {
        Some(pair) => pair,
        None => { return None; },
    };
    let (transactions, pos3) = match read_txn_list(bytes, pos2) {
        Some(pair) => pair,
        None => { return None; },
    };
    let (nonce, pos4) = match read_u64(bytes, pos3) {
        Some(pair) => pair,
        None => { return None; },
    };
    let (previous_hash, pos5) = match read_text(bytes, pos4) {
        Some(pair) => pair,
        None => { return None; },
    };
    let (hash, pos6) = match read_digest(bytes, pos5) {
        Some(pair) => pair,
        None => { return None; },
    };
    let (difficulty, pos7) = match read_u32(bytes, pos6) {
        Some(pair) => pair,
        None => { return None; },
    };
    let (merkle_root, pos8) = match Tree::read_from(bytes, pos7) {
        Some(pair) => pair,
        None => { return None; },
    };
    Some(
        (
            Block::from_parts(
                index,
                timestamp,
                transactions,
                nonce,
                previous_hash,
                hash,
                difficulty,
                merkle_root,
            ),
            pos8,
        ),
    )
}

impl Block {
    /// The canonical encoding of the block. A block with a list or a text
    /// too long for a 32-bit length gives a serialization error.
    pub fn encode(&self) -> (r: Result<Vec<u8>, Error>)
        ensures
            block_fits(self@) ==> r is Ok && r->Ok_0@ == enc_block(self@),
            !block_fits(self@) ==> r == Err::<Vec<u8>, Error>(codec_error()),
    {
        let mut out: Vec<u8> = Vec::new();
        if write_block(&mut out, self) {
            assert(out@ =~= enc_block(self@));
            Ok(out)
        } else {
            Err(Error::Protocol(ProtocolError::SerializationError))
        }
    }

    /// The block that `bytes` encode. Bytes that are no encoding of a
    /// block, or that go on after one, give a serialization error. Nothing
    /// else is checked: see `is_valid`.
    pub fn decode(bytes: &[u8]) -> (r: Result<Block, Error>)
        ensures
            match parse_block(bytes@) {
                Some((b, rest)) => if rest.len() == 0 {
                    r is Ok && r->Ok_0@ == b
                } else {
                    r == Err::<Block, Error>(codec_error())
                },
                None => r == Err::<Block, Error>(codec_error()),
            },
    {
        assert(bytes@.skip(0) =~= bytes@);
        match read_block(bytes, 0) {
            Some((b, end)) => {
                if end == bytes.len() {
                    Ok(b)
                } else {
                    Err(Error::Protocol(ProtocolError::SerializationError))
                }
            },
            None => Err(Error::Protocol(ProtocolError::SerializationError)),
        }
    }
}

} // verus!
