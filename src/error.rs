//! What can end a streamed response early.

use vstd::prelude::*;

use crate::anthropic_types::EventKind;
use crate::assembler::Phase;

verus! {

/// Why an event was refused by the assembler.
#[derive(Debug, Clone, Copy, PartialEq, Eq, Structural)]
pub enum ViolationReason {
    /// The event is not allowed in the assembler's current phase.
    IllegalTransition,
    /// A content block was started at an index that is already in use.
    DuplicateIndex,
    /// A delta or stop names an index at which no block was started.
    UnknownIndex,
}

/// An event that arrived out of the protocol's legal order.
#[derive(Debug, Clone, Copy, PartialEq, Eq, Structural)]
pub struct ProtocolViolation {
    pub event: EventKind,
    pub phase: Phase,
    pub reason: ViolationReason,
}

/// A terminal failure of a streamed response.
#[derive(Debug, Clone)]
pub enum StreamError {
    /// A line of the body is not well-formed UTF-8.
    InvalidUtf8,
    /// The service answered with a status other than success; the body is kept as it came.
    Api(String),
    /// The body ended before the message did.
    Truncated,
    /// A frame's payload does not have the shape its event tag calls for.
    Decode { event_type: String, payload: String },
    /// Events arrived in an order the protocol does not allow.
    Protocol(ProtocolViolation),
}

impl StreamError {
    /// Checks the status of a response before any of its body is streamed: any status
    /// other than success (200) is an API error that carries the full body text, unparsed.
    pub fn from_status(status: u16, body: String) -> (r: Option<StreamError>)
        ensures
            status == 200 ==> r is None,
            status != 200 ==> r == Some(StreamError::Api(body)),
    {
        if status == 200 {
            None
        } else {
            Some(StreamError::Api(body))
        }
    }
}

} // verus!
