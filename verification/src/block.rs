//! Blocks: an index-linked record of transactions whose hash meets a
//! difficulty target.

use vstd::prelude::*;
use vstd::string::*;
use crate::bytes::{
    append_bytes, append_u128_le, append_u64_le, be_prefix_u128, be_value, same_digest, u128_le,
    u64_le,
};
use vstd::utf8::encode_utf8;
use crate::errors::Error;
use crate::crypto::{blake3_digest, hash_bytes};
use crate::clock::now_millis;
use crate::merkle::{Node, Tree, leaves, merkle_root, tree_over};
use crate::transaction::{Transaction, TransactionView};

verus! {

/// A block: its place in the chain, its transactions and the tree that
/// commits to them, and the nonce and hash that mining found.
#[derive(Debug, Clone, PartialEq, Eq)]
pub struct Block {
    /// Height of the block.
    index: u64,
    /// Milliseconds since the Unix epoch at which mining began.
    timestamp: u128,
    transactions: Vec<Transaction>,
    nonce: u64,
    previous_hash: String,
    hash: [u8; 32],
    difficulty: u32,
    merkle_root: Tree,
}

/// The mathematical value of a block.
pub struct BlockView {
    pub index: u64,
    pub timestamp: u128,
    pub transactions: Seq<TransactionView>,
    pub nonce: u64,
    pub previous_hash: Seq<char>,
    pub hash: [u8; 32],
    pub difficulty: u32,
    pub merkle_root: Option<Node>,
}

/// The values of a sequence of transactions.
pub open spec fn txn_views(items: Seq<Transaction>) -> Seq<TransactionView> {
    Seq::new(items.len(), |i: int| items[i]@)
}

/// The identifiers of the transactions, in order.
pub open spec fn txn_hashes(items: Seq<TransactionView>) -> Seq<[u8; 32]> {
    Seq::new(items.len(), |i: int| items[i].hash_id)
}

/// The digests one after the other.
pub open spec fn concat_digests(hashes: Seq<[u8; 32]>) -> Seq<u8>
    decreases hashes.len(),
{
    if hashes.len() == 0 {
        Seq::empty()
    } else {
        concat_digests(hashes.drop_last()) + hashes.last()@
    }
}

/// The leading 16 bytes of a hash as a big-endian number.
pub open spec fn hash_prefix(hash: [u8; 32]) -> nat {
    be_value(hash@.subrange(0, 16))
}

/// Whether `difficulty` is a number of leading zero bits that can be asked.
pub open spec fn difficulty_in_range(difficulty: u32) -> bool {
    1 <= difficulty <= 127
}

/// The largest hash prefix that `difficulty` admits.
pub open spec fn target(difficulty: u32) -> u128 {
    u128::MAX >> difficulty
}

/// Whether `hash` has the leading zero bits that `difficulty` asks for.
pub open spec fn meets_target(hash: [u8; 32], difficulty: u32) -> bool {
    difficulty_in_range(difficulty) && hash_prefix(hash) <= target(difficulty)
}

/// The nonce `steps` after `start`, counting past the largest back to zero.
pub open spec fn nonce_after(start: u64, steps: int) -> u64 {
    if start + steps <= u64::MAX {
        (start + steps) as u64
    } else {
        (start + steps - 0x1_0000_0000_0000_0000) as u64
    }
}

/// The number of steps from the nonce `start` to the nonce `end`.
pub open spec fn nonce_steps(start: u64, end: u64) -> int {
    if end >= start {
        end - start
    } else {
        end + 0x1_0000_0000_0000_0000 - start
    }
}

impl BlockView {
    /// The root digest of the block's tree, if it has one.
    pub open spec fn root_hash(self) -> Option<[u8; 32]> {
        match self.merkle_root {
            Some(node) => Some(node.hash),
            None => None,
        }
    }

    /// The bytes that the hash of the block with the given nonce is the
    /// digest of: index and timestamp in little-endian order, the
    /// identifier of every transaction, the nonce in little-endian order,
    /// the previous hash as text, and the root digest of the tree.
    pub open spec fn preimage(self, nonce: u64) -> Seq<u8>
        recommends
            self.merkle_root is Some,
    {
        u64_le(self.index) + u128_le(self.timestamp) + concat_digests(
            txn_hashes(self.transactions),
        ) + u64_le(nonce) + encode_utf8(self.previous_hash)
            + self.root_hash()->Some_0@
    }

    /// The hash that the block has with the given nonce.
    pub open spec fn hash_with(self, nonce: u64) -> [u8; 32] {
        blake3_digest(self.preimage(nonce))
    }

    /// The hash that the block's fields give.
    pub open spec fn block_hash(self) -> [u8; 32] {
        self.hash_with(self.nonce)
    }

    /// The block holds transactions, its tree commits to their identifiers,
    /// and its difficulty can be asked.
    pub open spec fn well_formed(self) -> bool {
        &&& self.transactions.len() > 0
        &&& difficulty_in_range(self.difficulty)
        &&& self.root_hash() == merkle_root(txn_hashes(self.transactions))
    }

    /// Whether the block with the given nonce meets its target.
    pub open spec fn hits(self, nonce: u64) -> bool {
        meets_target(self.hash_with(nonce), self.difficulty)
    }

    /// The block is well formed, carries the hash of its fields, and the
    /// hash meets the target.
    pub open spec fn valid(self) -> bool {
        &&& self.well_formed()
        &&& self.hash == self.block_hash()
        &&& meets_target(self.hash, self.difficulty)
    }

    /// The same block but for nonce and hash.
    pub open spec fn same_body(self, other: BlockView) -> bool {
        &&& self.index == other.index
        &&& self.timestamp == other.timestamp
        &&& self.transactions == other.transactions
        &&& self.previous_hash == other.previous_hash
        &&& self.difficulty == other.difficulty
        &&& self.merkle_root == other.merkle_root
    }

    /// The block as mining leaves it when it started at the nonce `start`:
    /// the nonce is the first one from `start` on that meets the target,
    /// and the hash is the one of that nonce.
    pub open spec fn mined_from(self, start: u64) -> bool {
        &&& self.hash == self.block_hash()
        &&& self.hits(self.nonce)
        &&& forall|steps: int|
            0 <= steps < nonce_steps(start, self.nonce) ==> !#[trigger] self.hits(
                nonce_after(start, steps),
            )
    }
}

/// Whether no nonce at all gives a block of these fields a hash that meets
/// the target, whatever tree commits to the transactions.
pub open spec fn unminable(
    index: u64,
    timestamp: u128,
    transactions: Seq<TransactionView>,
    previous_hash: Seq<char>,
    difficulty: u32,
) -> bool {
    forall|b: BlockView, nonce: u64|
        b.index == index && b.timestamp == timestamp && b.transactions == transactions
            && b.previous_hash == previous_hash && b.difficulty == difficulty
            && b.well_formed() ==> !#[trigger] b.hits(nonce)
}

/// The texts of a sequence of strings.
pub open spec fn witness_texts(items: Seq<String>) -> Seq<Seq<char>> {
    Seq::new(items.len(), |i: int| items[i]@)
}

/// The error of the first transaction that does not verify with the witness
/// at its place, if any.
pub open spec fn first_failure(
    transactions: Seq<TransactionView>,
    witnesses: Seq<Seq<char>>,
) -> Option<Error>
    decreases transactions.len(),
{
    if transactions.len() == 0 || witnesses.len() == 0 {
        None
    } else {
        match transactions[0].verify_result(witnesses[0]) {
            Err(e) => Some(e),
            Ok(_) => first_failure(transactions.drop_first(), witnesses.drop_first()),
        }
    }
}

impl BlockView {
    /// The result of checking a received block against the witnesses of
    /// its transactions, one for each and in their order: the block must be
    /// valid and every transaction must verify with its witness.
    pub open spec fn validation(self, witnesses: Seq<Seq<char>>) -> Result<(), Error> {
        if !self.valid() || witnesses.len() != self.transactions.len() {
            Err(Error::InvalidBlock)
        } else {
            match first_failure(self.transactions, witnesses) {
                Some(e) => Err(e),
                None => Ok(()),
            }
        }
    }
}

impl View for Block {
    type V = BlockView;

    closed spec fn view(&self) -> BlockView {
        BlockView {
            index: self.index,
            timestamp: self.timestamp,
            transactions: txn_views(self.transactions@),
            nonce: self.nonce,
            previous_hash: self.previous_hash@,
            hash: self.hash,
            difficulty: self.difficulty,
            merkle_root: self.merkle_root.root(),
        }
    }
}

/// Whether `hash` has the leading zero bits that `difficulty` asks for.
/// A difficulty outside 1 to 127 is met by no hash.
pub fn hash_meets_target(hash: &[u8; 32], difficulty: u32) -> (r: bool)
    ensures
        r == meets_target(*hash, difficulty),
{
    if difficulty < 1 || difficulty > 127 {
        return false;
    }
    let limit: u128 = u128::MAX >> difficulty;
    be_prefix_u128(hash) <= limit
}

/// The identifiers of `transactions`, in order.
pub fn collect_hashes(transactions: &Vec<Transaction>) -> (hashes: Vec<[u8; 32]>)
    ensures
        hashes@ == txn_hashes(txn_views(transactions@)),
{
    let mut hashes: Vec<[u8; 32]> = Vec::new();
    let mut i: usize = 0;
    while i < transactions.len()
        invariant
            i <= transactions@.len(),
            hashes@ == txn_hashes(txn_views(transactions@)).subrange(0, i as int),
        decreases transactions@.len() - i,
    {
        hashes.push(transactions[i].hash_id);
        assert(hashes@ =~= txn_hashes(txn_views(transactions@)).subrange(0, i + 1));
        i += 1;
    }
    assert(hashes@ =~= txn_hashes(txn_views(transactions@)));
    hashes
}

/// Appends every digest in `hashes` to `out`.
fn append_digests(out: &mut Vec<u8>, hashes: &Vec<[u8; 32]>)
    ensures
        final(out)@ == old(out)@ + concat_digests(hashes@),
{
    let mut i: usize = 0;
    assert(hashes@.subrange(0, 0) =~= Seq::<[u8; 32]>::empty());
    while i < hashes.len()
        invariant
            i <= hashes@.len(),
            out@ == old(out)@ + concat_digests(hashes@.subrange(0, i as int)),
        decreases hashes@.len() - i,
    {
        append_bytes(out, &hashes[i]);
        proof {
            let next = hashes@.subrange(0, i + 1);
            assert(next.drop_last() =~= hashes@.subrange(0, i as int));
            assert(next.last() == hashes@[i as int]);
            assert(out@ =~= old(out)@ + concat_digests(next));
        }
        i += 1;
    }
    assert(hashes@.subrange(0, hashes@.len() as int) =~= hashes@);
}

/// Every nonce is some number of steps below 2^64 after any other.
proof fn lemma_nonce_reached(start: u64, nonce: u64)
    ensures
        0 <= nonce_steps(start, nonce) < 0x1_0000_0000_0000_0000,
        nonce_after(start, nonce_steps(start, nonce)) == nonce,
{
}

impl Block {
    /// A block over `transactions`, stamped with the current time and mined
    /// from the nonce 0 on, with the tree over the transactions'
    /// identifiers.
    ///
    /// No transactions or a difficulty outside 1 to 127 give `InvalidBlock`.
    /// Otherwise a clock that cannot be read gives `TimeError`, and
    /// `InvalidBlock` comes only when no nonce at all meets the target for
    /// the time that was read.
    pub fn new(
        index: u64,
        transactions: Vec<Transaction>,
        previous_hash: String,
        difficulty: u32,
    ) -> (r: Result<Self, Error>)
        ensures
            transactions@.len() == 0 || !difficulty_in_range(difficulty) ==> r == Err::<
                Block,
                Error,
            >(Error::InvalidBlock),
            r is Err ==> r == Err::<Block, Error>(Error::InvalidBlock) || r == Err::<Block, Error>(
                Error::TimeError,
            ),
            r == Err::<Block, Error>(Error::InvalidBlock) && transactions@.len() > 0
                && difficulty_in_range(difficulty) ==> exists|timestamp: u128|
                #[trigger] unminable(
                    index,
                    timestamp,
                    txn_views(transactions@),
                    previous_hash@,
                    difficulty,
                ),
            r is Ok ==> {
                let b = r->Ok_0@;
                &&& b.index == index
                &&& b.transactions == txn_views(transactions@)
                &&& b.previous_hash == previous_hash@
                &&& b.difficulty == difficulty
                &&& b.merkle_root == tree_over(leaves(txn_hashes(txn_views(transactions@))))
                &&& b.valid()
                &&& b.mined_from(0)
                &&& !unminable(index, b.timestamp, b.transactions, b.previous_hash, difficulty)
            },
    {
        if transactions.len() == 0 || difficulty < 1 || difficulty > 127 {
            return Err(Error::InvalidBlock);
        }
        let timestamp = match now_millis() {
            Ok(millis) => millis,
            Err(e) => { return Err(e); },
        };
        let r = Block::new_at(index, transactions, previous_hash, difficulty, timestamp);
        proof {
            if r is Err {
                assert(unminable(
                    index,
                    timestamp,
                    txn_views(transactions@),
                    previous_hash@,
                    difficulty,
                ));
            }
        }
        r
    }

    /// A block over `transactions` with the given timestamp, mined from the
    /// nonce 0 on, with the tree over the transactions' identifiers. No
    /// transactions, a difficulty outside 1 to 127, or no nonce that meets
    /// the target give `InvalidBlock`, and nothing else does.
    pub fn new_at(
        index: u64,
        transactions: Vec<Transaction>,
        previous_hash: String,
        difficulty: u32,
        timestamp: u128,
    ) -> (r: Result<Self, Error>)
        ensures
            r is Err ==> r == Err::<Block, Error>(Error::InvalidBlock),
            r is Err <==> transactions@.len() == 0 || !difficulty_in_range(difficulty)
                || unminable(
                index,
                timestamp,
                txn_views(transactions@),
                previous_hash@,
                difficulty,
            ),
            r is Ok ==> {
                let b = r->Ok_0@;
                &&& b.index == index
                &&& b.timestamp == timestamp
                &&& b.transactions == txn_views(transactions@)
                &&& b.previous_hash == previous_hash@
                &&& b.difficulty == difficulty
                &&& b.merkle_root == tree_over(leaves(txn_hashes(txn_views(transactions@))))
                &&& b.valid()
                &&& b.mined_from(0)
            },
    {
        if transactions.len() == 0 || difficulty < 1 || difficulty > 127 {
            return Err(Error::InvalidBlock);
        }
        let hashes = collect_hashes(&transactions);
        let merkle_root = Tree::with_hashes(hashes.as_slice());
        let mut block = Block {
            index,
            timestamp,
            transactions,
            nonce: 0,
            previous_hash,
            hash: [0u8; 32],
            difficulty,
            merkle_root,
        };
        let ghost start = block@;
        match block.mine_block() {
            Ok(_) => {
                proof {
                    assert(block@.well_formed() && block@.hits(block@.nonce));
                }
                Ok(block)
            },
            Err(e) => {
                proof {
                    assert forall|b: BlockView, nonce: u64|
                        b.index == index && b.timestamp == timestamp && b.transactions
                            == txn_views(transactions@) && b.previous_hash == previous_hash@
                            && b.difficulty == difficulty
                            && b.well_formed() implies !#[trigger] b.hits(nonce) by {
                        assert(b.root_hash() == start.root_hash());
                        assert(b.preimage(nonce) == start.preimage(nonce));
                        assert(!start.hits(nonce));
                    }
                }
                Err(e)
            },
        }
    }

    /// The block with the given fields, whatever they are: nothing is
    /// checked and nothing is mined.
    pub fn from_parts(
        index: u64,
        timestamp: u128,
        transactions: Vec<Transaction>,
        nonce: u64,
        previous_hash: String,
        hash: [u8; 32],
        difficulty: u32,
        merkle_root: Tree,
    ) -> (block: Self)
        ensures
            block@ == (BlockView {
                index,
                timestamp,
                transactions: txn_views(transactions@),
                nonce,
                previous_hash: previous_hash@,
                hash,
                difficulty,
                merkle_root: merkle_root.root(),
            }),
    {
        Block {
            index,
            timestamp,
            transactions,
            nonce,
            previous_hash,
            hash,
            difficulty,
            merkle_root,
        }
    }

    /// The hash that the block's fields give. The block must have a tree
    /// with a root.
    pub fn calculate_hash(&self) -> (hash: [u8; 32])
        requires
            self@.merkle_root is Some,
        ensures
            hash == self@.block_hash(),
    {
        let root = match self.merkle_root.root_hash() {
            Some(root) => root,
            None => [0u8; 32],
        };
        let hashes = collect_hashes(&self.transactions);
        let mut bytes: Vec<u8> = Vec::new();
        append_u64_le(&mut bytes, self.index);
        append_u128_le(&mut bytes, self.timestamp);
        append_digests(&mut bytes, &hashes);
        append_u64_le(&mut bytes, self.nonce);
        append_bytes(&mut bytes, self.previous_hash.as_str().as_bytes());
        append_bytes(&mut bytes, &root);
        assert(bytes@ =~= self@.preimage(self.nonce));
        hash_bytes(bytes.as_slice())
    }

    /// Searches for a nonce whose hash meets the target, from the current
    /// nonce on, counting past the largest nonce back to zero, and leaves the
    /// block with the first one found and its hash.
    ///
    /// A block that is not well formed, or for which no nonce at all meets
    /// the target, gives `InvalidBlock`.
    pub fn mine_block(&mut self) -> (r: Result<(), Error>)
        ensures
            final(self)@.same_body(old(self)@),
            r is Err ==> r == Err::<(), Error>(Error::InvalidBlock),
            r is Ok ==> final(self)@.valid() && final(self)@.mined_from(old(self)@.nonce),
            r is Err && old(self)@.well_formed() ==> forall|nonce: u64|
                !#[trigger] old(self)@.hits(nonce),
            !old(self)@.well_formed() ==> r is Err && *final(self) == *old(self),
    {
        if !self.is_well_formed() {
            return Err(Error::InvalidBlock);
        }
        let start = self.nonce;
        let ghost before = self@;
        let ghost mut steps: int = 0;
        loop
            invariant
                self@.same_body(before),
                before == old(self)@,
                before.well_formed(),
                before.nonce == start,
                0 <= steps < 0x1_0000_0000_0000_0000,
                self.nonce == nonce_after(start, steps),
                forall|k: int| 0 <= k < steps ==> !#[trigger] before.hits(nonce_after(start, k)),
            decreases 0x1_0000_0000_0000_0000 - steps,
        {
            self.hash = self.calculate_hash();
            assert(self@.preimage(self.nonce) == before.preimage(self.nonce));
            if hash_meets_target(&self.hash, self.difficulty) {
                proof {
                    lemma_nonce_reached(start, self.nonce);
                    assert forall|k: int| 0 <= k < nonce_steps(start, self.nonce) implies !(
                    #[trigger] self@.hits(nonce_after(start, k))) by {
                        assert(self@.preimage(nonce_after(start, k)) == before.preimage(
                            nonce_after(start, k),
                        ));
                        assert(!before.hits(nonce_after(start, k)));
                    }
                }
                return Ok(());
            }
            let next: u64 = if self.nonce == u64::MAX {
                0
            } else {
                self.nonce + 1
            };
            if next == start {
                proof {
                    assert forall|nonce: u64| !#[trigger] before.hits(nonce) by {
                        lemma_nonce_reached(start, nonce);
                        let k = nonce_steps(start, nonce);
                        if k < steps {
                            assert(!before.hits(nonce_after(start, k)));
                        }
                    }
                }
                return Err(Error::InvalidBlock);
            }
            self.nonce = next;
            proof {
                steps = steps + 1;
            }
        }
    }

    /// Whether the block holds transactions, has a difficulty that can be
    /// asked, and a tree that commits to the transactions' identifiers.
    pub fn is_well_formed(&self) -> (r: bool)
        ensures
            r == self@.well_formed(),
    {
        if self.transactions.len() == 0 || self.difficulty < 1 || self.difficulty > 127 {
            return false;
        }
        let hashes = collect_hashes(&self.transactions);
        let expected = Tree::with_hashes(hashes.as_slice()).root_hash();
        match (self.merkle_root.root_hash(), expected) {
            (Some(have), Some(want)) => same_digest(&have, &want),
            (None, None) => true,
            _ => false,
        }
    }

    /// Whether the block is well formed, carries the hash of its fields,
    /// and the hash meets the target.
    pub fn is_valid(&self) -> (r: bool)
        ensures
            r == self@.valid(),
    {
        if !self.is_well_formed() {
            return false;
        }
        let hash = self.calculate_hash();
        same_digest(&self.hash, &hash) && hash_meets_target(&self.hash, self.difficulty)
    }

    /// Checks a received block against the witnesses of its transactions,
    /// one for each and in their order. A block that is not valid, or
    /// another number of witnesses than transactions, gives `InvalidBlock`;
    /// otherwise the first transaction that does not verify gives its error.
    pub fn validate(&self, unlocking_scripts: &Vec<String>) -> (r: Result<(), Error>)
        ensures
            r == self@.validation(witness_texts(unlocking_scripts@)),
    {
        if !self.is_valid() || unlocking_scripts.len() != self.transactions.len() {
            return Err(Error::InvalidBlock);
        }
        let ghost all = self@.transactions;
        let ghost witnesses = witness_texts(unlocking_scripts@);
        let mut i: usize = 0;
        assert(all.skip(0) =~= all);
        assert(witnesses.skip(0) =~= witnesses);
        while i < self.transactions.len()
            invariant
                i <= self.transactions@.len(),
                all == txn_views(self.transactions@),
                all == self@.transactions,
                self@.valid(),
                witnesses == witness_texts(unlocking_scripts@),
                witnesses.len() == all.len(),
                first_failure(all, witnesses) == first_failure(
                    all.skip(i as int),
                    witnesses.skip(i as int),
                ),
            decreases self.transactions@.len() - i,
        {
            proof {
                let rest = all.skip(i as int);
                let scripts = witnesses.skip(i as int);
                assert(rest[0] == self.transactions@[i as int]@);
                assert(scripts[0] == unlocking_scripts@[i as int]@);
                assert(rest.drop_first() =~= all.skip(i + 1));
                assert(scripts.drop_first() =~= witnesses.skip(i + 1));
            }
            match self.transactions[i].verify(unlocking_scripts[i].as_str()) {
                Ok(_) => {},
                Err(e) => { return Err(e); },
            }
            i += 1;
        }
        Ok(())
    }

    /// Searches as `mine_block` does, but tries no more than `attempts`
    /// nonces, so that a caller can stop between two calls.
    ///
    /// The result is `true` when a nonce was found. It is `false` when none
    /// of the nonces tried meets the target; the block is then left at the
    /// nonce that comes next. A block that is not well formed gives
    /// `InvalidBlock`.
    pub fn mine_block_within(&mut self, attempts: u64) -> (r: Result<bool, Error>)
        ensures
            final(self)@.same_body(old(self)@),
            r is Err <==> !old(self)@.well_formed(),
            r is Err ==> r == Err::<bool, Error>(Error::InvalidBlock) && *final(self) == *old(
                self,
            ),
            r == Ok::<bool, Error>(true) ==> final(self)@.valid() && final(self)@.mined_from(
                old(self)@.nonce,
            ) && nonce_steps(old(self)@.nonce, final(self)@.nonce) < attempts,
            r == Ok::<bool, Error>(false) ==> final(self)@.nonce == nonce_after(
                old(self)@.nonce,
                attempts as int,
            ) && forall|k: int|
                0 <= k < attempts ==> !#[trigger] old(self)@.hits(
                    nonce_after(old(self)@.nonce, k),
                ),
    {
        if !self.is_well_formed() {
            return Err(Error::InvalidBlock);
        }
        let start = self.nonce;
        let ghost before = self@;
        let mut tried: u64 = 0;
        while tried < attempts
            invariant
                self@.same_body(before),
                before == old(self)@,
                before.well_formed(),
                before.nonce == start,
                tried <= attempts,
                self.nonce == nonce_after(start, tried as int),
                forall|k: int| 0 <= k < tried ==> !#[trigger] before.hits(nonce_after(start, k)),
            decreases attempts - tried,
        {
            self.hash = self.calculate_hash();
            assert(self@.preimage(self.nonce) == before.preimage(self.nonce));
            if hash_meets_target(&self.hash, self.difficulty) {
                proof {
                    lemma_nonce_reached(start, self.nonce);
                    assert forall|k: int| 0 <= k < nonce_steps(start, self.nonce) implies !(
                    #[trigger] self@.hits(nonce_after(start, k))) by {
                        assert(self@.preimage(nonce_after(start, k)) == before.preimage(
                            nonce_after(start, k),
                        ));
                        assert(!before.hits(nonce_after(start, k)));
                    }
                }
                return Ok(true);
            }
            self.nonce = if self.nonce == u64::MAX {
                0
            } else {
                self.nonce + 1
            };
            tried += 1;
        }
        Ok(false)
    }

    /// Height of the block.
    pub fn index(&self) -> (r: u64)
        ensures
            r == self@.index,
    {
        self.index
    }

    /// Milliseconds since the Unix epoch at which mining began.
    pub fn timestamp(&self) -> (r: u128)
        ensures
            r == self@.timestamp,
    {
        self.timestamp
    }

    /// The transactions that the block includes.
    pub fn transactions(&self) -> (r: &Vec<Transaction>)
        ensures
            txn_views(r@) == self@.transactions,
    {
        &self.transactions
    }

    /// The nonce that the hash was found with.
    pub fn nonce(&self) -> (r: u64)
        ensures
            r == self@.nonce,
    {
        self.nonce
    }

    /// The hash of the previous block, as text.
    pub fn previous_hash(&self) -> (r: &String)
        ensures
            r@ == self@.previous_hash,
    {
        &self.previous_hash
    }

    /// The hash of the block.
    pub fn hash(&self) -> (r: [u8; 32])
        ensures
            r == self@.hash,
    {
        self.hash
    }

    /// The number of leading zero bits asked of the hash.
    pub fn difficulty(&self) -> (r: u32)
        ensures
            r == self@.difficulty,
    {
        self.difficulty
    }

    /// The tree over the transactions' identifiers.
    pub fn merkle_root(&self) -> (r: &Tree)
        ensures
            r.root() == self@.merkle_root,
    {
        &self.merkle_root
    }
}

/// A valid block carries the hash of its fields, and the leading 16 bytes
/// of that hash, read as a big-endian number, do not exceed the largest
/// 128-bit number shifted right by the difficulty.
pub proof fn lemma_valid_block(b: BlockView)
    requires
        b.valid(),
    ensures
        b.hash == b.block_hash(),
        hash_prefix(b.hash) <= u128::MAX >> b.difficulty,
{
}

} // verus!
