//! Protocol-level message envelope types of the commerce layer.

use vstd::prelude::*;

verus! {

/// A protocol version string.
pub struct ProtocolVersion(pub String);

impl View for ProtocolVersion {
    type V = Seq<char>;

    open spec fn view(&self) -> Seq<char> {
        self.0@
    }
}

/// Kinds of commerce-protocol message.
#[derive(Clone, Copy, PartialEq, Eq, Structural, Debug)]
pub enum MessageType {
    TransactionRequest,
    TransactionProposal,
    TransactionAcceptance,
    TransactionCompletion,
    ReputationUpdate,
}

/// A commerce-protocol message: a kind, the protocol version it was
/// produced under, and an opaque payload.
pub struct ACPMessage {
    pub message_type: MessageType,
    pub version: ProtocolVersion,
    pub payload: Vec<u8>,
}

impl ACPMessage {
    /// Create a message under the current protocol version.
    pub fn new(message_type: MessageType, payload: Vec<u8>) -> (r: ACPMessage)
        ensures
            r.message_type == message_type,
            r.version@ == crate::version::PROTOCOL_VERSION@,
            r.payload@ == payload@,
    {
        ACPMessage {
            message_type,
            version: ProtocolVersion(crate::version::PROTOCOL_VERSION.to_owned()),
            payload,
        }
    }
}

} // verus!
