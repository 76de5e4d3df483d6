//! What the node exchanges with its peers: messages and their framing.

use vstd::prelude::*;

pub mod message;
pub mod protocol;

verus! {

/// A message as it is handed to the transport, with the version of the
/// sender and a checksum.
#[derive(Debug, Clone)]
pub struct Payload {
    pub version: u8,
    pub message: message::Message,
    pub checksum: u64,
}

} // verus!
