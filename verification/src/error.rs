//! Error taxonomy of the gateway core.

use vstd::prelude::*;

verus! {

/// Everything that can go wrong inside the gateway core or at its edges.
///
/// Transport and protocol errors terminate the owning client only;
/// registry-level errors surface to the caller.
#[derive(Debug, Clone, PartialEq, Eq, Structural)]
pub enum Error {
    /// Malformed frame, missing mandatory field, or an opcode that the
    /// current session state does not accept.
    ProtocolViolation,
    /// The received heartbeat sequence number differs from the local one
    /// by the contained amount, which is 3 or more.
    SequenceDrift(u64),
    /// No heartbeat was observed within the liveness window.
    LivenessTimeout,
    /// The underlying sink or stream failed.
    TransportFailure,
    /// A broadcast ring overflowed for a slow client.
    BackpressureOverflow,
    /// A resume token was not found in the store, or the gap was too large.
    ResumeUnknown,
    /// An event could not be delivered to the inbox of the contained user id.
    Dispatch(u64),
    /// `BulkMessageBuilder::send` was called without a message.
    NoMessage,
    /// Surfaced from the relational store; not recoverable inside the core.
    Database,
}

impl Error {
    /// A human-readable description, in place of `Display` (which the
    /// verifier does not support on library types).
    pub fn message(&self) -> &'static str {
        match self {
            Error::ProtocolViolation => "protocol violation",
            Error::SequenceDrift(_) => "heartbeat sequence drift",
            Error::LivenessTimeout => "heartbeat liveness timeout",
            Error::TransportFailure => "Channel closed or error encountered",
            Error::BackpressureOverflow => "broadcast lag",
            Error::ResumeUnknown => "unknown or expired resume token",
            Error::Dispatch(_) => "could not deliver event to inbox",
            Error::NoMessage => "No message to send",
            Error::Database => "database error",
        }
    }
}

} // verus!
