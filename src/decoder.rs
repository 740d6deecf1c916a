//! The event decoder: checks a frame's tag against the known event kinds and the
//! event that its payload parsed to.

use vstd::prelude::*;

use crate::anthropic_types::{kind_of_tag, EventKind, StreamEvent};
use crate::error::StreamError;
use crate::framer::Frame;

verus! {

/// What a frame decodes to when it does not fail.
#[derive(Debug, Clone)]
pub enum Decoded {
    /// An event of a known kind, matching the frame's tag.
    Event(StreamEvent),
    /// A tag this client does not know: the frame is to be skipped, and the stream goes on.
    Unknown(String),
}

/// The event of a kind that carries no data.
pub open spec fn bare_event(k: EventKind) -> StreamEvent {
    if k == EventKind::Ping {
        StreamEvent::Ping
    } else {
        StreamEvent::MessageStop
    }
}

/// Whether `parsed` holds an event of kind `k`.
pub open spec fn parsed_as(parsed: Option<StreamEvent>, k: EventKind) -> bool {
    parsed matches Some(e) && e.spec_kind() == k
}

/// What a frame decodes to, given the event its payload parsed to (`None` where it did not parse).
/// - an unknown tag yields `Unknown` with that tag;
/// - a known tag yields the parsed event where its kind is the tag's;
/// - failing that, a tag of a kind without data and an empty payload yield that event;
/// - anything else is a decode error that carries the tag and the payload.
pub open spec fn decoded(frame: Frame, parsed: Option<StreamEvent>) -> Result<Decoded, StreamError> {
    match kind_of_tag(frame.event_type@) {
        None => Ok(Decoded::Unknown(frame.event_type)),
        Some(k) => {
            if parsed_as(parsed, k) {
                Ok(Decoded::Event(parsed->0))
            } else if k.spec_is_bare() && frame.payload@.len() == 0 {
                Ok(Decoded::Event(bare_event(k)))
            } else {
                Err(StreamError::Decode { event_type: frame.event_type, payload: frame.payload })
            }
        },
    }
}

/// Decodes a frame, given the event its payload parsed to.
pub fn decode_frame(frame: Frame, parsed: Option<StreamEvent>) -> (r: Result<Decoded, StreamError>)
    ensures
        r == decoded(frame, parsed),
{
    match EventKind::from_tag(frame.event_type.as_str()) {
        None => Ok(Decoded::Unknown(frame.event_type)),
        Some(k) => {
            match parsed {
                Some(e) => {
                    if e.kind() == k {
                        return Ok(Decoded::Event(e));
                    }
                },
                None => {},
            }
            if frame.payload.as_str().is_empty() {
                if k == EventKind::Ping {
                    return Ok(Decoded::Event(StreamEvent::Ping));
                } else if k == EventKind::MessageStop {
                    return Ok(Decoded::Event(StreamEvent::MessageStop));
                }
            }
            Err(StreamError::Decode { event_type: frame.event_type, payload: frame.payload })
        },
    }
}

} // verus!
