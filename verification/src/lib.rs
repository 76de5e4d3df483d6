//! Core of a UTXO-model blockchain node: unspent outputs with a minimal
//! locking-script machine, signed transactions, a Merkle commitment over
//! transaction identifiers, proof-of-work blocks, and a fee-prioritised
//! memory pool with bounded admission.

pub mod errors;
pub mod crypto;
pub mod hexcode;
pub mod clock;
pub mod utils;
pub mod script;
pub mod bytes;
pub mod utxo;
pub mod transaction;
pub mod spend;
pub mod merkle;
pub mod merkle_proof;
pub mod block;
pub mod codec;
pub mod utxo_codec;
pub mod transaction_codec;
pub mod mempool;
pub mod block_codec;
pub mod mempool_codec;
pub mod net;
pub mod blockchain;
pub mod test_utils;
