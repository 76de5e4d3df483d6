//! The memory pool: pending transactions ordered by the fee they pay for
//! each byte, with bounded admission.

use vstd::prelude::*;
use crate::errors::Error;
use crate::clock::now_millis;
use crate::bytes::same_digest;
use crate::transaction::{Transaction, TransactionView};
use crate::transaction_codec::transaction_size;
use crate::block::txn_views;

verus! {

/// What the pool keeps of a transaction to order it.
#[derive(Debug, Clone, Copy, PartialEq, Eq)]
pub struct PriorityEntry {
    pub fee_per_byte: u64,
    /// Milliseconds since the Unix epoch at which the transaction came in.
    pub timestamp: u128,
    pub size: u64,
    pub txn_hash: [u8; 32],
}

impl PriorityEntry {
    /// Whether this entry has a higher priority than `other`: it pays more
    /// for each byte, or the same and is older.
    pub open spec fn spec_outranks(self, other: PriorityEntry) -> bool {
        self.fee_per_byte > other.fee_per_byte || (self.fee_per_byte == other.fee_per_byte
            && self.timestamp < other.timestamp)
    }

    /// Whether this entry has a higher priority than `other`.
    pub fn outranks(&self, other: &PriorityEntry) -> (r: bool)
        ensures
            r == self.spec_outranks(*other),
    {
        self.fee_per_byte > other.fee_per_byte || (self.fee_per_byte == other.fee_per_byte
            && self.timestamp < other.timestamp)
    }
}

/// The size of a transaction as the pool counts it: the number of bytes
/// of its encoding, capped at the largest `u64`.
pub open spec fn counted_size(t: TransactionView) -> u64 {
    if transaction_size(t) <= u64::MAX {
        transaction_size(t) as u64
    } else {
        u64::MAX
    }
}

/// The entry of a transaction that pays `fee` and came in at `timestamp`.
pub open spec fn entry_for(t: TransactionView, fee: u64, timestamp: u128) -> PriorityEntry {
    PriorityEntry {
        fee_per_byte: fee / counted_size(t),
        timestamp,
        size: counted_size(t),
        txn_hash: t.hash_id,
    }
}

/// The place of a new entry among `entries`: behind every entry that it
/// does not outrank, so in front of the first one that it outranks.
pub open spec fn insert_position(entries: Seq<PriorityEntry>, e: PriorityEntry) -> int
    decreases entries.len(),
{
    if entries.len() == 0 || e.spec_outranks(entries[0]) {
        0
    } else {
        1 + insert_position(entries.drop_first(), e)
    }
}

/// The index of the first entry for `hash`, or the number of entries when
/// there is none.
pub open spec fn position_of(entries: Seq<PriorityEntry>, hash: [u8; 32]) -> int
    decreases entries.len(),
{
    if entries.len() == 0 || entries[0].txn_hash == hash {
        0
    } else {
        1 + position_of(entries.drop_first(), hash)
    }
}

/// How many entries from the front go into a block of `limit` bytes of
/// which `used` are taken: entries are taken as long as the total stays
/// below the limit, and none after the first that does not fit.
pub open spec fn fitting(entries: Seq<PriorityEntry>, used: int, limit: int) -> int
    decreases entries.len(),
{
    if entries.len() == 0 || used + entries[0].size >= limit {
        0
    } else {
        1 + fitting(entries.drop_first(), used + entries[0].size, limit)
    }
}

/// The mathematical value of a pool: its entries from the highest priority
/// to the lowest, the transaction of each entry, and the bound.
pub struct MemPoolView {
    pub entries: Seq<PriorityEntry>,
    pub transactions: Seq<TransactionView>,
    pub max_size: usize,
}

impl MemPoolView {
    /// Every entry stands for the transaction beside it, no transaction is
    /// held twice, an entry never outranks one in front of it, and the
    /// pool holds no more than its bound.
    pub open spec fn well_formed(self) -> bool {
        &&& self.entries.len() == self.transactions.len()
        &&& self.entries.len() <= self.max_size
        &&& forall|i: int|
            0 <= i < self.entries.len() ==> (#[trigger] self.entries[i]).txn_hash
                == self.transactions[i].hash_id
        &&& forall|i: int, j: int|
            0 <= i < j < self.entries.len() ==> (#[trigger] self.entries[i]).txn_hash != (
            #[trigger] self.entries[j]).txn_hash
        &&& forall|i: int, j: int|
            0 <= i < j < self.entries.len() ==> !(#[trigger] self.entries[j]).spec_outranks(
                #[trigger] self.entries[i],
            )
    }

    /// Whether the pool holds the transaction with the identifier `hash`.
    pub open spec fn contains(self, hash: [u8; 32]) -> bool {
        position_of(self.entries, hash) < self.entries.len()
    }

    /// The transactions by identifier.
    pub open spec fn by_hash(self) -> Map<[u8; 32], TransactionView> {
        Map::new(
            |hash: [u8; 32]| self.contains(hash),
            |hash: [u8; 32]| self.transactions[position_of(self.entries, hash)],
        )
    }

    /// The identifiers of the entries, in order.
    pub open spec fn hashes(self) -> Seq<[u8; 32]> {
        Seq::new(self.entries.len(), |i: int| self.entries[i].txn_hash)
    }

    /// The pool with `entry` and its transaction put in at the entry's place.
    pub open spec fn with_entry(self, entry: PriorityEntry, t: TransactionView) -> MemPoolView {
        let at = insert_position(self.entries, entry);
        MemPoolView {
            entries: self.entries.insert(at, entry),
            transactions: self.transactions.insert(at, t),
            max_size: self.max_size,
        }
    }

    /// The pool without its entry of lowest priority.
    pub open spec fn evict(self) -> MemPoolView {
        MemPoolView {
            entries: self.entries.drop_last(),
            transactions: self.transactions.drop_last(),
            max_size: self.max_size,
        }
    }

    /// The pool without the entry at `at`.
    pub open spec fn without(self, at: int) -> MemPoolView {
        MemPoolView {
            entries: self.entries.remove(at),
            transactions: self.transactions.remove(at),
            max_size: self.max_size,
        }
    }

    /// The pool without its first `count` entries.
    pub open spec fn after_draw(self, count: int) -> MemPoolView {
        MemPoolView {
            entries: self.entries.skip(count),
            transactions: self.transactions.skip(count),
            max_size: self.max_size,
        }
    }

    /// The result of offering the transaction `t` with `fee` at `timestamp`.
    ///
    /// A transaction that the pool holds is refused. Below the bound the
    /// transaction is admitted. At the bound it is admitted in place of the
    /// entry of lowest priority when it pays strictly more for each byte
    /// than that entry, and refused for its low fee otherwise.
    pub open spec fn offer(self, t: TransactionView, fee: u64, timestamp: u128) -> Result<
        (),
        Error,
    > {
        let entry = entry_for(t, fee, timestamp);
        if self.contains(t.hash_id) {
            Err(Error::TxnExistInMempool)
        } else if self.entries.len() < self.max_size {
            Ok(())
        } else if self.entries.len() > 0 && entry.fee_per_byte
            > self.entries.last().fee_per_byte {
            Ok(())
        } else {
            Err(Error::TxnLowFee)
        }
    }

    /// The pool after the transaction `t` has been offered with `fee` at
    /// `timestamp`.
    pub open spec fn after_offer(self, t: TransactionView, fee: u64, timestamp: u128) -> MemPoolView {
        let entry = entry_for(t, fee, timestamp);
        if self.offer(t, fee, timestamp) is Err {
            self
        } else if self.entries.len() < self.max_size {
            self.with_entry(entry, t)
        } else {
            self.evict().with_entry(entry, t)
        }
    }
}

/// Where a new entry is put, nothing in front of it is outranked by it,
/// and the entry behind it is.
pub proof fn lemma_insert_position(entries: Seq<PriorityEntry>, e: PriorityEntry)
    ensures
        0 <= insert_position(entries, e) <= entries.len(),
        forall|i: int|
            0 <= i < insert_position(entries, e) ==> !e.spec_outranks(#[trigger] entries[i]),
        insert_position(entries, e) < entries.len() ==> e.spec_outranks(
            entries[insert_position(entries, e)],
        ),
    decreases entries.len(),
{
    if entries.len() == 0 || e.spec_outranks(entries[0]) {
    } else {
        let tail = entries.drop_first();
        lemma_insert_position(tail, e);
        assert forall|i: int| 0 <= i < insert_position(entries, e) implies !e.spec_outranks(
            #[trigger] entries[i],
        ) by {
            if i > 0 {
                assert(entries[i] == tail[i - 1]);
            }
        }
        if insert_position(entries, e) < entries.len() {
            assert(entries[insert_position(entries, e)] == tail[insert_position(tail, e)]);
        }
    }
}

/// The position of an identifier is the index of its first entry.
pub proof fn lemma_position_of(entries: Seq<PriorityEntry>, hash: [u8; 32])
    ensures
        0 <= position_of(entries, hash) <= entries.len(),
        forall|i: int|
            0 <= i < position_of(entries, hash) ==> (#[trigger] entries[i]).txn_hash != hash,
        position_of(entries, hash) < entries.len() ==> entries[position_of(
            entries,
            hash,
        )].txn_hash == hash,
    decreases entries.len(),
{
    if entries.len() == 0 || entries[0].txn_hash == hash {
    } else {
        let tail = entries.drop_first();
        lemma_position_of(tail, hash);
        assert forall|i: int| 0 <= i < position_of(entries, hash) implies (
        #[trigger] entries[i]).txn_hash != hash by {
            if i > 0 {
                assert(entries[i] == tail[i - 1]);
            }
        }
        if position_of(entries, hash) < entries.len() {
            assert(entries[position_of(entries, hash)] == tail[position_of(tail, hash)]);
        }
    }
}

/// Admitting a transaction that the pool does not hold, below the bound,
/// leaves the pool well formed.
pub proof fn lemma_with_entry_well_formed(p: MemPoolView, entry: PriorityEntry, t: TransactionView)
    requires
        p.well_formed(),
        p.entries.len() < p.max_size,
        !p.contains(entry.txn_hash),
        entry.txn_hash == t.hash_id,
    ensures
        p.with_entry(entry, t).well_formed(),
        p.with_entry(entry, t).entries.len() == p.entries.len() + 1,
{
    lemma_insert_position(p.entries, entry);
    lemma_position_of(p.entries, entry.txn_hash);
    let at = insert_position(p.entries, entry);
    let q = p.with_entry(entry, t);
    assert forall|i: int| 0 <= i < q.entries.len() implies (#[trigger] q.entries[i]).txn_hash
        == q.transactions[i].hash_id by {
        if i < at {
            assert(q.entries[i] == p.entries[i]);
        } else if i > at {
            assert(q.entries[i] == p.entries[i - 1]);
        }
    }
    assert forall|i: int, j: int| 0 <= i < j < q.entries.len() implies (
    #[trigger] q.entries[i]).txn_hash != (#[trigger] q.entries[j]).txn_hash && !q.entries[j].spec_outranks(
        q.entries[i],
    ) by {
        let a = if i < at {
            i
        } else {
            i - 1
        };
        let b = if j < at {
            j
        } else {
            j - 1
        };
        if i != at {
            assert(q.entries[i] == p.entries[a]);
        }
        if j != at {
            assert(q.entries[j] == p.entries[b]);
        }
        if i == at {
            assert(p.entries[at].txn_hash != entry.txn_hash);
            if b > at {
                assert(!p.entries[b].spec_outranks(p.entries[at]));
            }
        }
    }
}

/// Evicting the entry of lowest priority leaves the pool well formed and
/// without that entry's transaction only.
pub proof fn lemma_evict_well_formed(p: MemPoolView)
    requires
        p.well_formed(),
        p.entries.len() > 0,
    ensures
        p.evict().well_formed(),
        p.evict().entries.len() < p.max_size,
        forall|hash: [u8; 32]| !p.contains(hash) ==> !p.evict().contains(hash),
{
    let q = p.evict();
    assert forall|i: int, j: int| 0 <= i < j < q.entries.len() implies (
    #[trigger] q.entries[i]).txn_hash != (#[trigger] q.entries[j]).txn_hash && !q.entries[j].spec_outranks(
        q.entries[i],
    ) by {
        assert(q.entries[i] == p.entries[i]);
        assert(q.entries[j] == p.entries[j]);
    }
    assert forall|hash: [u8; 32]| !p.contains(hash) implies !q.contains(hash) by {
        lemma_position_of(p.entries, hash);
        lemma_position_of(q.entries, hash);
        let at = position_of(q.entries, hash);
        if at < q.entries.len() {
            assert(q.entries[at] == p.entries[at]);
        }
    }
}

/// Taking an entry out leaves the pool well formed.
pub proof fn lemma_without_well_formed(p: MemPoolView, at: int)
    requires
        p.well_formed(),
        0 <= at < p.entries.len(),
    ensures
        p.without(at).well_formed(),
{
    let q = p.without(at);
    assert forall|i: int| 0 <= i < q.entries.len() implies (#[trigger] q.entries[i]).txn_hash
        == q.transactions[i].hash_id by {
        if i < at {
            assert(q.entries[i] == p.entries[i]);
        } else {
            assert(q.entries[i] == p.entries[i + 1]);
        }
    }
    assert forall|i: int, j: int| 0 <= i < j < q.entries.len() implies (
    #[trigger] q.entries[i]).txn_hash != (#[trigger] q.entries[j]).txn_hash && !q.entries[j].spec_outranks(
        q.entries[i],
    ) by {
        let a = if i < at {
            i
        } else {
            i + 1
        };
        let b = if j < at {
            j
        } else {
            j + 1
        };
        assert(q.entries[i] == p.entries[a]);
        assert(q.entries[j] == p.entries[b]);
    }
}

/// Drawing entries from the front leaves the pool well formed.
pub proof fn lemma_draw_well_formed(p: MemPoolView, count: int)
    requires
        p.well_formed(),
        0 <= count <= p.entries.len(),
    ensures
        p.after_draw(count).well_formed(),
{
    let q = p.after_draw(count);
    assert forall|i: int, j: int| 0 <= i < j < q.entries.len() implies (
    #[trigger] q.entries[i]).txn_hash != (#[trigger] q.entries[j]).txn_hash && !q.entries[j].spec_outranks(
        q.entries[i],
    ) by {
        assert(q.entries[i] == p.entries[i + count]);
        assert(q.entries[j] == p.entries[j + count]);
    }
}

/// An offer leaves a well-formed pool well formed.
pub proof fn lemma_offer_well_formed(p: MemPoolView, t: TransactionView, fee: u64, timestamp: u128)
    requires
        p.well_formed(),
    ensures
        p.after_offer(t, fee, timestamp).well_formed(),
{
    let entry = entry_for(t, fee, timestamp);
    if p.offer(t, fee, timestamp) is Ok {
        if p.entries.len() < p.max_size {
            lemma_with_entry_well_formed(p, entry, t);
        } else {
            lemma_evict_well_formed(p);
            lemma_with_entry_well_formed(p.evict(), entry, t);
        }
    }
}

/// A well-formed pool holds no more transactions than its bound, and
/// exactly as many as there are distinct identifiers among its entries.
pub proof fn lemma_pool_bounded(p: MemPoolView)
    requires
        p.well_formed(),
    ensures
        p.by_hash().dom().finite(),
        p.by_hash().dom() == p.hashes().to_set(),
        p.by_hash().dom().len() == p.entries.len(),
        p.by_hash().dom().len() <= p.max_size,
{
    let hashes = p.hashes();
    assert(hashes.no_duplicates()) by {
        assert forall|i: int, j: int|
            0 <= i < hashes.len() && 0 <= j < hashes.len() && i != j implies hashes[i]
            != hashes[j] by {
            if i < j {
                assert(p.entries[i].txn_hash != p.entries[j].txn_hash);
            } else {
                assert(p.entries[j].txn_hash != p.entries[i].txn_hash);
            }
        }
    }
    hashes.unique_seq_to_set();
    assert(p.by_hash().dom() =~= hashes.to_set()) by {
        assert forall|hash: [u8; 32]| p.by_hash().dom().contains(hash) <==> hashes.to_set().contains(
            hash,
        ) by {
            lemma_position_of(p.entries, hash);
            if p.contains(hash) {
                assert(hashes[position_of(p.entries, hash)] == hash);
            }
            if hashes.to_set().contains(hash) {
                let i = choose|i: int| 0 <= i < hashes.len() && hashes[i] == hash;
                assert(p.entries[i].txn_hash == hash);
            }
        }
    }
}

/// The pool: the transactions that wait for a block, and an entry for
/// each, both from the highest priority to the lowest.
#[derive(Debug, Clone)]
pub struct MemPool {
    transactions: Vec<Transaction>,
    priority_queue: Vec<PriorityEntry>,
    max_size: usize,
}

impl View for MemPool {
    type V = MemPoolView;

    closed spec fn view(&self) -> MemPoolView {
        MemPoolView {
            entries: self.priority_queue@,
            transactions: txn_views(self.transactions@),
            max_size: self.max_size,
        }
    }
}

impl MemPool {
    /// An empty pool that holds at most `max_size` transactions.
    pub fn new(max_size: usize) -> (pool: Self)
        ensures
            pool@.well_formed(),
            pool@.entries.len() == 0,
            pool@.max_size == max_size,
    {
        MemPool { transactions: Vec::new(), priority_queue: Vec::new(), max_size }
    }

    /// The pool of the given transactions and entries, when they make a
    /// well-formed pool: as many entries as transactions and no more than
    /// `max_size`, each entry with the identifier of the transaction at its
    /// place, no identifier twice, and no entry that outranks one in front
    /// of it.
    pub fn from_parts(
        transactions: Vec<Transaction>,
        priority_queue: Vec<PriorityEntry>,
        max_size: usize,
    ) -> (r: Option<Self>)
        ensures
            ({
                let view = MemPoolView {
                    entries: priority_queue@,
                    transactions: txn_views(transactions@),
                    max_size,
                };
                if view.well_formed() {
                    r is Some && r->Some_0@ == view
                } else {
                    r is None
                }
            }),
    {
        let ghost view = MemPoolView {
            entries: priority_queue@,
            transactions: txn_views(transactions@),
            max_size,
        };
        let n = priority_queue.len();
        if transactions.len() != n || n > max_size {
            return None;
        }
        let mut i: usize = 0;
        while i < n
            invariant
                i <= n,
                n == priority_queue@.len(),
                n == transactions@.len(),
                view.entries == priority_queue@,
                view.transactions == txn_views(transactions@),
                forall|k: int|
                    0 <= k < i ==> (#[trigger] view.entries[k]).txn_hash
                        == view.transactions[k].hash_id,
                forall|k: int, j: int|
                    0 <= k < j < i ==> (#[trigger] view.entries[k]).txn_hash != (
                    #[trigger] view.entries[j]).txn_hash,
                forall|k: int, j: int|
                    0 <= k < j < i ==> !(#[trigger] view.entries[j]).spec_outranks(
                        #[trigger] view.entries[k],
                    ),
            decreases n - i,
        {
            if !same_digest(&priority_queue[i].txn_hash, &transactions[i].hash_id) {
                assert(view.entries[i as int].txn_hash != view.transactions[i as int].hash_id);
                return None;
            }
            if i > 0 && priority_queue[i].outranks(&priority_queue[i - 1]) {
                assert(view.entries[i as int].spec_outranks(view.entries[i - 1]));
                return None;
            }
            let mut k: usize = 0;
            while k < i
                invariant
                    k <= i,
                    i < n,
                    n == priority_queue@.len(),
                    view.entries == priority_queue@,
                    forall|j: int|
                        0 <= j < k ==> (#[trigger] view.entries[j]).txn_hash
                            != view.entries[i as int].txn_hash,
                decreases i - k,
            {
                if same_digest(&priority_queue[k].txn_hash, &priority_queue[i].txn_hash) {
                    assert(view.entries[k as int].txn_hash == view.entries[i as int].txn_hash);
                    return None;
                }
                k += 1;
            }
            proof {
                assert forall|a: int, j: int| 0 <= a < j < i + 1 implies !(
                #[trigger] view.entries[j]).spec_outranks(#[trigger] view.entries[a]) by {
                    if j == i && a < i - 1 {
                        assert(!view.entries[i - 1].spec_outranks(view.entries[a]));
                    }
                }
            }
            i += 1;
        }
        Some(MemPool { transactions, priority_queue, max_size })
    }

    /// The entries of the pool, from the highest priority to the lowest.
    pub fn entries(&self) -> (r: &Vec<PriorityEntry>)
        ensures
            r@ == self@.entries,
    {
        &self.priority_queue
    }

    /// The transactions of the pool, each at the place of its entry.
    pub fn transactions(&self) -> (r: &Vec<Transaction>)
        ensures
            txn_views(r@) == self@.transactions,
    {
        &self.transactions
    }

    /// The number of transactions in the pool.
    pub fn len(&self) -> (n: usize)
        ensures
            n == self@.entries.len(),
    {
        self.priority_queue.len()
    }

    /// The largest number of transactions that the pool holds.
    pub fn max_size(&self) -> (n: usize)
        ensures
            n == self@.max_size,
    {
        self.max_size
    }

    /// The index of the entry for `hash`, or the number of entries.
    fn find(&self, hash: &[u8; 32]) -> (at: usize)
        ensures
            at == position_of(self@.entries, *hash),
            at <= self@.entries.len(),
    {
        let mut i: usize = 0;
        assert(self@.entries.skip(0) =~= self@.entries);
        while i < self.priority_queue.len()
            invariant
                i <= self.priority_queue@.len(),
                position_of(self@.entries, *hash) == i + position_of(
                    self@.entries.skip(i as int),
                    *hash,
                ),
            decreases self.priority_queue@.len() - i,
        {
            let ghost rest = self@.entries.skip(i as int);
            assert(rest[0] == self.priority_queue@[i as int]);
            if same_digest(&self.priority_queue[i].txn_hash, hash) {
                return i;
            }
            assert(rest.drop_first() =~= self@.entries.skip(i + 1));
            i += 1;
        }
        i
    }

    /// Whether the pool holds the transaction with the identifier `hash`.
    pub fn contains(&self, hash: &[u8; 32]) -> (r: bool)
        ensures
            r == self@.contains(*hash),
    {
        self.find(hash) < self.priority_queue.len()
    }

    /// The transaction with the identifier `hash`, if the pool holds it.
    pub fn get(&self, hash: &[u8; 32]) -> (r: Option<&Transaction>)
        requires
            self@.well_formed(),
        ensures
            r is Some <==> self@.contains(*hash),
            r is Some ==> r->Some_0@ == self@.by_hash()[*hash],
    {
        let at = self.find(hash);
        if at < self.priority_queue.len() {
            Some(&self.transactions[at])
        } else {
            None
        }
    }

    /// Offers the transaction `txn`, which pays `fee`, at the current time.
    /// A clock that cannot be read gives `TimeError` and leaves the pool as
    /// it was; otherwise the offer is decided as `add_transaction_at` does
    /// for the time read.
    pub fn add_transaction(&mut self, txn: Transaction, fee: u64) -> (r: Result<(), Error>)
        requires
            old(self)@.well_formed(),
        ensures
            final(self)@.well_formed(),
            old(self)@.contains(txn.hash_id) ==> r == Err::<(), Error>(Error::TxnExistInMempool)
                && final(self)@ == old(self)@,
            r == Err::<(), Error>(Error::TimeError) ==> final(self)@ == old(self)@,
            r != Err::<(), Error>(Error::TimeError) ==> exists|timestamp: u128|
                r == old(self)@.offer(txn@, fee, timestamp) && final(self)@ == #[trigger] old(
                    self,
                )@.after_offer(txn@, fee, timestamp),
    {
        if self.contains(&txn.hash_id) {
            assert(self@ == self@.after_offer(txn@, fee, 0));
            return Err(Error::TxnExistInMempool);
        }
        let timestamp = match now_millis() {
            Ok(millis) => millis,
            Err(e) => { return Err(e); },
        };
        self.add_transaction_at(txn, fee, timestamp)
    }

    /// Offers the transaction `txn`, which pays `fee`, at `timestamp`.
    ///
    /// A transaction that the pool holds is refused with
    /// `TxnExistInMempool`. It is ranked by the fee for each byte of its
    /// encoding. Below the bound it is admitted; at the bound it takes the
    /// place of the entry of lowest priority when it pays strictly more for
    /// each byte, and is refused with `TxnLowFee` otherwise.
    pub fn add_transaction_at(&mut self, txn: Transaction, fee: u64, timestamp: u128) -> (r: Result<
        (),
        Error,
    >)
        requires
            old(self)@.well_formed(),
        ensures
            r == old(self)@.offer(txn@, fee, timestamp),
            final(self)@ == old(self)@.after_offer(txn@, fee, timestamp),
            final(self)@.well_formed(),
            r is Ok ==> final(self)@.contains(txn.hash_id),
    {
        proof {
            lemma_offer_well_formed(self@, txn@, fee, timestamp);
        }
        if self.contains(&txn.hash_id) {
            return Err(Error::TxnExistInMempool);
        }
        let size = txn.size();
        let entry = PriorityEntry {
            fee_per_byte: fee / size,
            timestamp,
            size,
            txn_hash: txn.hash_id,
        };
        assert(entry == entry_for(txn@, fee, timestamp));
        let n = self.priority_queue.len();
        if n >= self.max_size {
            if n == 0 || entry.fee_per_byte <= self.priority_queue[n - 1].fee_per_byte {
                return Err(Error::TxnLowFee);
            }
            self.priority_queue.pop();
            self.transactions.pop();
            assert(self@.entries =~= old(self)@.evict().entries);
            assert(self@.transactions =~= old(self)@.evict().transactions);
        }
        let ghost base = self@;
        let at = self.place(&entry);
        self.priority_queue.insert(at, entry);
        self.transactions.insert(at, txn);
        proof {
            assert(self@.entries =~= base.with_entry(entry, txn@).entries);
            assert(self@.transactions =~= base.with_entry(entry, txn@).transactions);
            lemma_position_of(self@.entries, txn.hash_id);
            assert(self@.entries[at as int].txn_hash == txn.hash_id);
        }
        Ok(())
    }

    /// The place of `entry` among the entries.
    fn place(&self, entry: &PriorityEntry) -> (at: usize)
        ensures
            at == insert_position(self@.entries, *entry),
            at <= self@.entries.len(),
    {
        let mut i: usize = 0;
        assert(self@.entries.skip(0) =~= self@.entries);
        while i < self.priority_queue.len()
            invariant
                i <= self.priority_queue@.len(),
                insert_position(self@.entries, *entry) == i + insert_position(
                    self@.entries.skip(i as int),
                    *entry,
                ),
            decreases self.priority_queue@.len() - i,
        {
            let ghost rest = self@.entries.skip(i as int);
            assert(rest[0] == self.priority_queue@[i as int]);
            if entry.outranks(&self.priority_queue[i]) {
                return i;
            }
            assert(rest.drop_first() =~= self@.entries.skip(i + 1));
            i += 1;
        }
        i
    }

    /// Takes the transaction with the identifier `tx_hash` out of the pool
    /// and returns it, or returns nothing and leaves the pool as it was
    /// when it holds no such transaction.
    pub fn remove_transaction(&mut self, tx_hash: &[u8; 32]) -> (r: Option<Transaction>)
        requires
            old(self)@.well_formed(),
        ensures
            final(self)@.well_formed(),
            r is Some <==> old(self)@.contains(*tx_hash),
            r is Some ==> r->Some_0@ == old(self)@.by_hash()[*tx_hash] && final(self)@ == old(
                self,
            )@.without(position_of(old(self)@.entries, *tx_hash)),
            r is None ==> final(self)@ == old(self)@,
            !final(self)@.contains(*tx_hash),
    {
        let at = self.find(tx_hash);
        if at >= self.priority_queue.len() {
            return None;
        }
        proof {
            lemma_without_well_formed(self@, at as int);
        }
        self.priority_queue.remove(at);
        let txn = self.transactions.remove(at);
        proof {
            assert(self@.entries =~= old(self)@.without(at as int).entries);
            assert(self@.transactions =~= old(self)@.without(at as int).transactions);
            lemma_position_of(old(self)@.entries, *tx_hash);
            lemma_position_of(self@.entries, *tx_hash);
            let found = position_of(self@.entries, *tx_hash);
            if found < self@.entries.len() {
                if found < at {
                    assert(self@.entries[found] == old(self)@.entries[found]);
                } else {
                    assert(self@.entries[found] == old(self)@.entries[found + 1]);
                }
            }
        }
        Some(txn)
    }

    /// Draws the transactions for a block of less than `max_block_size`
    /// bytes: the entries of highest priority, taken in order as long as
    /// the sizes drawn so far and the next one stay below the bound, and
    /// none after the first that does not fit. The transactions drawn leave
    /// the pool.
    pub fn get_transactions_for_block(&mut self, max_block_size: usize) -> (r: Vec<Transaction>)
        requires
            old(self)@.well_formed(),
        ensures
            final(self)@.well_formed(),
            r@.len() == fitting(old(self)@.entries, 0, max_block_size as int),
            txn_views(r@) == old(self)@.transactions.take(r@.len() as int),
            final(self)@ == old(self)@.after_draw(r@.len() as int),
    {
        let limit = max_block_size as u64;
        let mut count: usize = 0;
        let mut used: u64 = 0;
        let ghost all = self@.entries;
        assert(all.skip(0) =~= all);
        while count < self.priority_queue.len() && self.priority_queue[count].size < limit - used
            invariant
                count <= self.priority_queue@.len(),
                all == self.priority_queue@,
                limit == max_block_size,
                used <= limit,
                count > 0 ==> used < limit,
                fitting(all, 0, limit as int) == count + fitting(
                    all.skip(count as int),
                    used as int,
                    limit as int,
                ),
            decreases self.priority_queue@.len() - count,
        {
            let ghost rest = all.skip(count as int);
            assert(rest[0] == all[count as int]);
            assert(rest.drop_first() =~= all.skip(count + 1));
            used = used + self.priority_queue[count].size;
            count += 1;
        }
        proof {
            let rest = all.skip(count as int);
            if count < all.len() {
                assert(rest[0] == all[count as int]);
            }
            lemma_draw_well_formed(self@, count as int);
        }
        let mut drawn: Vec<Transaction> = Vec::new();
        core::mem::swap(&mut drawn, &mut self.transactions);
        let kept = drawn.split_off(count);
        self.transactions = kept;
        let kept_entries = self.priority_queue.split_off(count);
        self.priority_queue = kept_entries;
        proof {
            assert(self@.entries =~= old(self)@.after_draw(count as int).entries);
            assert(self@.transactions =~= old(self)@.after_draw(count as int).transactions);
            assert(txn_views(drawn@) =~= old(self)@.transactions.take(count as int));
        }
        drawn
    }
}

} // verus!
