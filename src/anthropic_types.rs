//! The protocol's data: messages, content blocks, usage counters and the closed
//! set of streamed events.

use vstd::prelude::*;

use crate::text::same_text;

verus! {

/// A complete message as the service describes it, at the start of a stream or
/// as the body of a single-shot reply.
#[derive(Debug, Clone)]
pub struct MessageResponse {
    pub id: String,
    pub _type: String,
    pub role: String,
    pub content: Vec<ContentBlock>,
    pub model: String,
    pub stop_reason: Option<String>,
    pub stop_sequence: Option<String>,
    pub usage: Usage,
}

/// One unit of generated content, with its kind tag and text.
#[derive(Debug, Clone)]
pub struct ContentBlock {
    pub _type: String,
    pub text: String,
}

/// The text carried by one content-block delta.
#[derive(Debug, Clone)]
pub struct ContentBlockDeltaDetails {
    pub _type: String,
    pub text: String,
}

/// Message-level changes: why generation stopped, and updated counters.
#[derive(Debug, Clone)]
pub struct Delta {
    pub stop_reason: Option<String>,
    pub stop_sequence: Option<String>,
    pub usage: Usage,
}

/// Token counters; either may be absent in early phases of a stream.
#[derive(Debug, Clone, Copy, PartialEq, Eq, Structural)]
pub struct Usage {
    pub input_tokens: Option<u32>,
    pub output_tokens: Option<u32>,
}

/// One event of a streamed response.
#[derive(Debug, Clone)]
pub enum StreamEvent {
    MessageStart { message: MessageResponse },
    ContentBlockStart { index: usize, content_block: ContentBlock },
    Ping,
    ContentBlockDelta { index: usize, delta: ContentBlockDeltaDetails },
    ContentBlockStop { index: usize },
    MessageDelta { delta: Delta },
    MessageStop,
}

/// The kind of an event, without its data.
#[derive(Debug, Clone, Copy, PartialEq, Eq, Structural)]
pub enum EventKind {
    MessageStart,
    ContentBlockStart,
    Ping,
    ContentBlockDelta,
    ContentBlockStop,
    MessageDelta,
    MessageStop,
}

impl StreamEvent {
    pub open spec fn spec_kind(&self) -> EventKind {
        match self {
            StreamEvent::MessageStart { .. } => EventKind::MessageStart,
            StreamEvent::ContentBlockStart { .. } => EventKind::ContentBlockStart,
            StreamEvent::Ping => EventKind::Ping,
            StreamEvent::ContentBlockDelta { .. } => EventKind::ContentBlockDelta,
            StreamEvent::ContentBlockStop { .. } => EventKind::ContentBlockStop,
            StreamEvent::MessageDelta { .. } => EventKind::MessageDelta,
            StreamEvent::MessageStop => EventKind::MessageStop,
        }
    }

    /// The kind of this event.
    pub fn kind(&self) -> (r: EventKind)
        ensures
            r == self.spec_kind(),
    {
        match self {
            StreamEvent::MessageStart { .. } => EventKind::MessageStart,
            StreamEvent::ContentBlockStart { .. } => EventKind::ContentBlockStart,
            StreamEvent::Ping => EventKind::Ping,
            StreamEvent::ContentBlockDelta { .. } => EventKind::ContentBlockDelta,
            StreamEvent::ContentBlockStop { .. } => EventKind::ContentBlockStop,
            StreamEvent::MessageDelta { .. } => EventKind::MessageDelta,
            StreamEvent::MessageStop => EventKind::MessageStop,
        }
    }
}

/// The wire tag of each event kind.
pub open spec fn tag_of(k: EventKind) -> Seq<char> {
    match k {
        EventKind::MessageStart => "message_start"@,
        EventKind::ContentBlockStart => "content_block_start"@,
        EventKind::Ping => "ping"@,
        EventKind::ContentBlockDelta => "content_block_delta"@,
        EventKind::ContentBlockStop => "content_block_stop"@,
        EventKind::MessageDelta => "message_delta"@,
        EventKind::MessageStop => "message_stop"@,
    }
}

/// The kind that a wire tag names, if it is one of the known tags.
pub open spec fn kind_of_tag(tag: Seq<char>) -> Option<EventKind> {
    if tag == tag_of(EventKind::MessageStart) {
        Some(EventKind::MessageStart)
    } else if tag == tag_of(EventKind::ContentBlockStart) {
        Some(EventKind::ContentBlockStart)
    } else if tag == tag_of(EventKind::Ping) {
        Some(EventKind::Ping)
    } else if tag == tag_of(EventKind::ContentBlockDelta) {
        Some(EventKind::ContentBlockDelta)
    } else if tag == tag_of(EventKind::ContentBlockStop) {
        Some(EventKind::ContentBlockStop)
    } else if tag == tag_of(EventKind::MessageDelta) {
        Some(EventKind::MessageDelta)
    } else if tag == tag_of(EventKind::MessageStop) {
        Some(EventKind::MessageStop)
    } else {
        None
    }
}

impl EventKind {
    /// Whether events of this kind carry no data, so that an empty payload suffices.
    pub open spec fn spec_is_bare(self) -> bool {
        self == EventKind::Ping || self == EventKind::MessageStop
    }

    /// The kind named by a wire tag, or `None` for a tag this client does not know.
    pub fn from_tag(tag: &str) -> (r: Option<EventKind>)
        ensures
            r == kind_of_tag(tag@),
    {
        if same_text(tag, "message_start") {
            Some(EventKind::MessageStart)
        } else if same_text(tag, "content_block_start") {
            Some(EventKind::ContentBlockStart)
        } else if same_text(tag, "ping") {
            Some(EventKind::Ping)
        } else if same_text(tag, "content_block_delta") {
            Some(EventKind::ContentBlockDelta)
        } else if same_text(tag, "content_block_stop") {
            Some(EventKind::ContentBlockStop)
        } else if same_text(tag, "message_delta") {
            Some(EventKind::MessageDelta)
        } else if same_text(tag, "message_stop") {
            Some(EventKind::MessageStop)
        } else {
            None
        }
    }
}

/// One turn of a conversation, as sent in a request.
#[derive(Debug, Clone, Copy)]
pub struct Message<'a> {
    pub role: &'a str,
    pub content: &'a str,
}

/// The body of a message-creation request.
#[derive(Debug, Clone)]
pub struct CreateMessageRequest<'a> {
    pub model: &'a str,
    pub max_tokens: u32,
    pub messages: Vec<Message<'a>>,
    pub stream: bool,
}

} // verus!
