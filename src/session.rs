//! One streamed response: the framer, the decoder and the assembler in sequence.
//!
//! The caller reads the body, hands each chunk to `feed`, parses the payload of each
//! frame it gets back, and hands frame and parse result to `accept`, which answers
//! with the text to deliver. When the body ends, `close_body` yields the frames its
//! last bytes complete, and `finish` tells whether the message reached its end.
//! Any error ends the stream.

use vstd::prelude::*;

use crate::anthropic_types::{kind_of_tag, EventKind, StreamEvent};
use crate::assembler::{
    failed, late_delta, state_wf, step, AssemblerState, InProgressMessage, MessageAssembler, Phase,
    StepResult,
};
use crate::decoder::{decode_frame, decoded, Decoded};
use crate::error::StreamError;
use crate::framer::{
    end_of_body, framer_wf, frames_view, initial_state, read_bytes, tags_present, Frame, FramerState, LineFramer,
};

verus! {

/// The state of a session: that of its framer and that of its assembler.
pub struct SessionState {
    pub framer: FramerState,
    pub assembler: AssemblerState,
}

/// What a session makes of one frame.
#[derive(Debug, Clone)]
pub enum Accepted {
    /// Text to deliver to the reader.
    Text(String),
    /// Text to deliver, from a delta to a block that was already stopped: tolerated,
    /// but an anomaly to report.
    LateText(String),
    /// An event that adds no text.
    NoText,
    /// A frame with an event tag this client does not know, skipped; the stream goes on.
    Skipped(String),
}

/// Whether a session's answer to an event is the assembler's step result.
/// `late` tells whether the event was a delta to a stopped block.
pub open spec fn accepted_as(r: Result<Accepted, StreamError>, expected: StepResult, late: bool) -> bool {
    match expected {
        Ok(None) => r matches Ok(Accepted::NoText),
        Ok(Some(t)) => if late {
            r matches Ok(Accepted::LateText(u)) && u@ == t
        } else {
            r matches Ok(Accepted::Text(u)) && u@ == t
        },
        Err(v) => r matches Err(StreamError::Protocol(w)) && w == v,
    }
}

/// Turns the body of one streamed response into the text fragments to deliver.
pub struct StreamSession {
    framer: LineFramer,
    assembler: MessageAssembler,
}

impl View for StreamSession {
    type V = SessionState;

    closed spec fn view(&self) -> SessionState {
        SessionState { framer: self.framer@, assembler: self.assembler@ }
    }
}

impl StreamSession {
    pub open spec fn wf(&self) -> bool {
        framer_wf(self@.framer) && state_wf(self@.assembler)
    }

    /// A session that has read nothing.
    pub fn new() -> (r: StreamSession)
        ensures
            r.wf(),
            r@.framer == initial_state(),
            r@.assembler == (AssemblerState { phase: Phase::Idle, message: None }),
    {
        StreamSession { framer: LineFramer::new(), assembler: MessageAssembler::new() }
    }

    /// Reads one chunk of the body and returns the frames it completes.
    pub fn feed(&mut self, chunk: &[u8]) -> (r: Result<Vec<Frame>, StreamError>)
        requires
            old(self).wf(),
        ensures
            final(self).wf(),
            final(self)@.assembler == old(self)@.assembler,
            final(self)@.framer == read_bytes(old(self)@.framer, chunk@).0,
            r is Err <==> final(self)@.framer.failed,
            r matches Err(e) ==> e is InvalidUtf8,
            r matches Ok(frames) ==> frames_view(frames@) == read_bytes(old(self)@.framer, chunk@).1,
            r matches Ok(frames) ==> tags_present(frames_view(frames@)),
    {
        self.framer.feed(chunk)
    }

    /// The kind that a frame's tag names, so that the caller knows whether its payload is
    /// worth parsing; `None` for a tag this client does not know.
    pub fn frame_kind(frame: &Frame) -> (r: Option<EventKind>)
        ensures
            r == kind_of_tag(frame.event_type@),
    {
        EventKind::from_tag(frame.event_type.as_str())
    }

    /// Takes one frame, with the event its payload parsed to (`None` where it did not parse),
    /// and returns the text it adds, if any. A frame with an unknown tag is skipped and
    /// reported as such; a frame that does not decode fails the session, which then
    /// refuses every later event but pings.
    pub fn accept(&mut self, frame: Frame, parsed: Option<StreamEvent>) -> (r: Result<
        Accepted,
        StreamError,
    >)
        requires
            old(self).wf(),
        ensures
            final(self).wf(),
            final(self)@.framer == old(self)@.framer,
            match decoded(frame, parsed) {
                Ok(Decoded::Unknown(tag)) => r == Ok::<Accepted, StreamError>(Accepted::Skipped(tag))
                    && final(self)@ == old(self)@,
                Ok(Decoded::Event(e)) => final(self)@.assembler == step(old(self)@.assembler, e).0
                    && accepted_as(r, step(old(self)@.assembler, e).1, late_delta(old(self)@.assembler, e)),
                Err(err) => r == Err::<Accepted, StreamError>(err)
                    && final(self)@.assembler == failed(old(self)@.assembler),
            },
    {
        match decode_frame(frame, parsed) {
            Ok(Decoded::Unknown(tag)) => Ok(Accepted::Skipped(tag)),
            Ok(Decoded::Event(e)) => {
                let late = self.assembler.is_late_delta(&e);
                match self.assembler.apply(e) {
                    Ok(Some(text)) => if late {
                        Ok(Accepted::LateText(text))
                    } else {
                        Ok(Accepted::Text(text))
                    },
                    Ok(None) => Ok(Accepted::NoText),
                    Err(err) => Err(err),
                }
            },
            Err(err) => {
                self.assembler.fail_stream();
                Err(err)
            },
        }
    }

    /// Reads the end of the body and returns the frames it completes: the last line,
    /// newline or not, and a frame still waiting for its data. A last line that is not
    /// UTF-8 fails the stream.
    pub fn close_body(&mut self) -> (r: Result<Vec<Frame>, StreamError>)
        requires
            old(self).wf(),
        ensures
            final(self).wf(),
            final(self)@.assembler == old(self)@.assembler,
            final(self)@.framer == read_bytes(old(self)@.framer, end_of_body()).0,
            r is Err <==> final(self)@.framer.failed,
            r matches Err(e) ==> e is InvalidUtf8,
            r matches Ok(frames) ==> frames_view(frames@) == read_bytes(old(self)@.framer, end_of_body()).1,
            r matches Ok(frames) ==> tags_present(frames_view(frames@)),
    {
        self.framer.finish()
    }

    /// The outcome of the stream once its body is over (after `close_body` and its frames):
    /// a success only where the message reached its end; otherwise the body was cut short.
    pub fn finish(&self) -> (r: Result<(), StreamError>)
        ensures
            r is Ok <==> self@.assembler.phase == Phase::Done,
            r matches Err(e) ==> e is Truncated,
    {
        if self.assembler.phase() == Phase::Done {
            Ok(())
        } else {
            Err(StreamError::Truncated)
        }
    }

    /// Whether the message has reached its end.
    pub fn is_done(&self) -> (r: bool)
        ensures
            r == (self@.assembler.phase == Phase::Done),
    {
        self.assembler.phase() == Phase::Done
    }

    /// The finished message, once the stream has reached its end.
    pub fn finished_message(&self) -> (r: Option<&InProgressMessage>)
        ensures
            r is Some <==> self@.assembler.phase == Phase::Done && self@.assembler.message is Some,
            r matches Some(m) ==> self@.assembler.message == Some(m@),
    {
        self.assembler.finished_message()
    }
}

} // verus!
