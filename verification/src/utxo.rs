//! Unspent transaction outputs: a pending slot of a transaction under
//! assembly, or a confirmed output locked to its owner's key.

use vstd::prelude::*;
use vstd::string::*;
use crate::bytes::{append_bytes, append_u32_le, append_u64_le, u32_le, u64_le};
use crate::errors::Error;
use crate::crypto::{blake3_digest, hash_bytes};
use crate::hexcode::{digest_hex, lower_hex};
use crate::clock::{now_millis, truncate_millis};
use crate::script::{evaluate, unlock_outcome};

verus! {

/// An unspent transaction output, pending or confirmed.
#[allow(clippy::style)]
#[derive(Debug, Clone, Hash, Eq, PartialEq)]
pub enum UTXO {
    Pending {
        /// The value of the output, never zero.
        value: u64,
        /// Index of the output in its transaction.
        index: u32,
    },
    Confirmed {
        id: [u8; 32],
        script_pubkey: String,
        value: u64,
        txn_hash: [u8; 32],
        index: u32,
        /// Low 32 bits of the millisecond timestamp of confirmation.
        created_at: u32,
        /// Height of the block that includes the output.
        block_height: u32,
        /// Whether the output was earned by mining.
        is_coinbase: bool,
    },
}

/// The mathematical value of an output: the same fields, the locking
/// script as a sequence of characters.
pub enum UtxoView {
    Pending { value: u64, index: u32 },
    Confirmed {
        id: [u8; 32],
        script_pubkey: Seq<char>,
        value: u64,
        txn_hash: [u8; 32],
        index: u32,
        created_at: u32,
        block_height: u32,
        is_coinbase: bool,
    },
}

/// The identifier of the output at `index` of the transaction `txn_hash`:
/// the digest of the hash followed by the index in little-endian order.
pub open spec fn utxo_id(txn_hash: [u8; 32], index: u32) -> [u8; 32] {
    blake3_digest(txn_hash@ + u32_le(index))
}

/// The script that locks an output to `owner`: the lower-case hexadecimal
/// digest of the owner's key, a space, and `OP_CHECKSIG`.
pub open spec fn lock_script(owner: [u8; 32]) -> Seq<char> {
    lower_hex(blake3_digest(owner@)@) + " OP_CHECKSIG"@
}

impl UtxoView {
    /// The value that the output carries.
    pub open spec fn value(self) -> u64 {
        match self {
            UtxoView::Pending { value, .. } => value,
            UtxoView::Confirmed { value, .. } => value,
        }
    }

    /// The value is not zero, and a confirmed output carries the identifier
    /// derived from its transaction and index.
    pub open spec fn well_formed(self) -> bool {
        match self {
            UtxoView::Pending { value, .. } => value > 0,
            UtxoView::Confirmed { id, value, txn_hash, index, .. } => value > 0 && id == utxo_id(
                txn_hash,
                index,
            ),
        }
    }

    /// The bytes that stand for the output in a transaction's hash. The
    /// transaction hash and the coinbase flag of a confirmed output take no
    /// part.
    pub open spec fn bytes(self) -> Seq<u8> {
        match self {
            UtxoView::Pending { value, index } => u64_le(value)
                + u32_le(index),
            UtxoView::Confirmed {
                id,
                script_pubkey,
                value,
                index,
                created_at,
                block_height,
                ..
            } => id@ + vstd::utf8::encode_utf8(script_pubkey) + u64_le(value)
                + u32_le(index) + u32_le(created_at)
                + u32_le(block_height),
        }
    }

    /// The outcome of spending the output with the witness `unlocking`.
    pub open spec fn unlock_result(self, unlocking: Seq<char>) -> Result<(), Error> {
        match self {
            UtxoView::Pending { .. } => Err(Error::PendingUTXO),
            UtxoView::Confirmed { script_pubkey, .. } => unlock_outcome(script_pubkey, unlocking),
        }
    }

    /// Whether this is the confirmed output that a pending one of `value`
    /// and `index` becomes: identified by the digest of `txn_hash` and the
    /// index, locked to `owner`, and carrying the remaining arguments.
    pub open spec fn confirms(
        self,
        value: u64,
        index: u32,
        owner: [u8; 32],
        txn_hash: [u8; 32],
        block_height: u32,
        coinbase: bool,
        created_at: u32,
    ) -> bool {
        &&& self is Confirmed
        &&& self->Confirmed_id == utxo_id(txn_hash, index)
        &&& self->Confirmed_script_pubkey == lock_script(owner)
        &&& self->Confirmed_value == value
        &&& self->Confirmed_txn_hash == txn_hash
        &&& self->Confirmed_index == index
        &&& self->Confirmed_created_at == created_at
        &&& self->Confirmed_block_height == block_height
        &&& self->Confirmed_is_coinbase == coinbase
    }
}

impl View for UTXO {
    type V = UtxoView;

    open spec fn view(&self) -> UtxoView {
        match *self {
            UTXO::Pending { value, index } => UtxoView::Pending { value, index },
            UTXO::Confirmed {
                id,
                script_pubkey,
                value,
                txn_hash,
                index,
                created_at,
                block_height,
                is_coinbase,
            } => UtxoView::Confirmed {
                id,
                script_pubkey: script_pubkey@,
                value,
                txn_hash,
                index,
                created_at,
                block_height,
                is_coinbase,
            },
        }
    }
}

impl UTXO {
    /// A pending output of `value` at `index`. A zero value is refused with
    /// `InvalidUTXOValue`.
    pub fn new(value: u64, index: u32) -> (r: Result<Self, Error>)
        ensures
            value == 0 ==> r == Err::<UTXO, Error>(Error::InvalidUTXOValue),
            value != 0 ==> r == Ok::<UTXO, Error>(UTXO::Pending { value, index }),
            r is Ok ==> r->Ok_0@.well_formed(),
    {
        if value == 0 {
            return Err(Error::InvalidUTXOValue);
        }
        Ok(Self::Pending { value, index })
    }

    /// Confirms a pending output with the given confirmation time. The
    /// result carries the identifier derived from `txn_hash` and the index,
    /// and is locked to `owner`. A confirmed output is refused with
    /// `ConfirmedUTXO`.
    pub fn confirm_at(
        self,
        owner: [u8; 32],
        txn_hash: [u8; 32],
        block_height: u32,
        coinbase: bool,
        created_at: u32,
    ) -> (r: Result<UTXO, Error>)
        ensures
            self is Confirmed ==> r == Err::<UTXO, Error>(Error::ConfirmedUTXO),
            self is Pending ==> r is Ok && r->Ok_0@.confirms(
                self->Pending_value,
                self->Pending_index,
                owner,
                txn_hash,
                block_height,
                coinbase,
                created_at,
            ),
            self is Pending && self@.well_formed() ==> r->Ok_0@.well_formed(),
    {
        match self {
            UTXO::Pending { value, index } => {
                let mut preimage: Vec<u8> = Vec::new();
                append_bytes(&mut preimage, &txn_hash);
                append_u32_le(&mut preimage, index);
                assert(preimage@ =~= txn_hash@ + u32_le(index));
                let id = hash_bytes(preimage.as_slice());
                let owner_hash = hash_bytes(&owner);
                let mut script_pubkey = digest_hex(&owner_hash);
                script_pubkey.append(" OP_CHECKSIG");
                Ok(
                    UTXO::Confirmed {
                        id,
                        script_pubkey,
                        value,
                        txn_hash,
                        index,
                        created_at,
                        block_height,
                        is_coinbase: coinbase,
                    },
                )
            },
            UTXO::Confirmed { .. } => Err(Error::ConfirmedUTXO),
        }
    }

    /// Confirms a pending output, stamped with the low 32 bits of the
    /// current time in milliseconds. A confirmed output is refused with
    /// `ConfirmedUTXO`; a clock that cannot be read gives `TimeError`.
    pub fn confirm_utxo(
        self,
        owner: [u8; 32],
        txn_hash: [u8; 32],
        block_height: u32,
        coinbase: bool,
    ) -> (r: Result<UTXO, Error>)
        ensures
            self is Confirmed ==> r == Err::<UTXO, Error>(Error::ConfirmedUTXO),
            self is Pending && r is Err ==> r == Err::<UTXO, Error>(Error::TimeError),
            self is Pending && r is Ok ==> exists|created_at: u32|
                #[trigger] r->Ok_0@.confirms(
                    self->Pending_value,
                    self->Pending_index,
                    owner,
                    txn_hash,
                    block_height,
                    coinbase,
                    created_at,
                ),
            self is Pending && r is Ok && self@.well_formed() ==> r->Ok_0@.well_formed(),
    {
        match self {
            UTXO::Pending { .. } => {
                let millis = match now_millis() {
                    Ok(millis) => millis,
                    Err(e) => { return Err(e); },
                };
                self.confirm_at(owner, txn_hash, block_height, coinbase, truncate_millis(millis))
            },
            UTXO::Confirmed { .. } => Err(Error::ConfirmedUTXO),
        }
    }

    /// The bytes that stand for the output in a transaction's hash.
    pub fn to_bytes(&self) -> (bytes: Vec<u8>)
        ensures
            bytes@ == self@.bytes(),
    {
        let mut bytes: Vec<u8> = Vec::new();
        match self {
            UTXO::Confirmed { id, script_pubkey, value, index, created_at, block_height, .. } => {
                append_bytes(&mut bytes, id);
                append_bytes(&mut bytes, script_pubkey.as_str().as_bytes());
                append_u64_le(&mut bytes, *value);
                append_u32_le(&mut bytes, *index);
                append_u32_le(&mut bytes, *created_at);
                append_u32_le(&mut bytes, *block_height);
                assert(bytes@ =~= self@.bytes());
            },
            UTXO::Pending { value, index } => {
                append_u64_le(&mut bytes, *value);
                append_u32_le(&mut bytes, *index);
                assert(bytes@ =~= self@.bytes());
            },
        }
        bytes
    }

    /// Spends the output with the witness `unlocking_script`. A pending
    /// output cannot be spent: `PendingUTXO`. For a confirmed one the
    /// witness is evaluated against the locking script.
    pub fn unlock(&self, unlocking_script: &str) -> (r: Result<(), Error>)
        ensures
            r == self@.unlock_result(unlocking_script@),
    {
        match self {
            UTXO::Pending { .. } => Err(Error::PendingUTXO),
            UTXO::Confirmed { script_pubkey, .. } => evaluate(
                script_pubkey.as_str(),
                unlocking_script,
            ),
        }
    }

    /// The value that the output carries.
    pub fn value(&self) -> (v: u64)
        ensures
            v == self@.value(),
    {
        match self {
            UTXO::Pending { value, .. } => *value,
            UTXO::Confirmed { value, .. } => *value,
        }
    }

    /// Whether the output is confirmed.
    pub fn is_confirmed(&self) -> (r: bool)
        ensures
            r == (self@ is Confirmed),
    {
        match self {
            UTXO::Pending { .. } => false,
            UTXO::Confirmed { .. } => true,
        }
    }
}

} // verus!
