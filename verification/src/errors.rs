//! Error kinds returned by the library.

use vstd::prelude::*;

verus! {

/// Failures of the request/response framing.
#[derive(Debug, Clone, Copy, PartialEq, Eq, Structural)]
pub enum ProtocolError {
    /// Fewer bytes than a header and a command or status byte.
    InvalidMessageFormat,
    /// The command byte names no command.
    UnsupportedCommand(u8),
    /// The status byte names no status.
    UnsupportedStatusCode(u8),
    /// The payload length differs from the length the header announces.
    HeaderMismatch,
    /// The header carries a protocol version that is not spoken here.
    UnknownVersion(u16),
    /// A payload could not be encoded or decoded.
    SerializationError,
}

/// Domain-level failures. None of them aborts the process.
#[derive(Debug, Clone, Copy, PartialEq, Eq, Structural)]
pub enum Error {
    Network,
    Protocol(ProtocolError),
    OwnerMismatch,
    /// A public key does not decode to a curve point.
    Signature,
    /// The system clock could not be read.
    TimeError,
    /// Outputs exceed inputs, or an input or output set is empty.
    InsufficientFunds,
    /// A signature does not verify under the sender's key.
    UnAuthorized,
    /// The operation needs a confirmed output.
    PendingUTXO,
    /// The operation needs a pending output.
    ConfirmedUTXO,
    /// A zero value, or a total that no `u64` holds.
    InvalidUTXOValue,
    /// The script machine rejected the witness.
    InvalidUnlockingScript,
    /// A byte string of the given length where a fixed length was needed.
    InvalidU8Length(usize),
    EmptyStack,
    /// A token that is not an even number of hexadecimal digits.
    HexcodeError,
    /// The transaction is already in the pool.
    TxnExistInMempool,
    /// The pool is full and the transaction pays no more than the cheapest one.
    TxnLowFee,
    /// No transactions, a difficulty out of range, or no nonce meets the target.
    InvalidBlock,
}

} // verus!
