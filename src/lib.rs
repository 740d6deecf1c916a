//! Client-side decoding of a streamed conversational-model response.
//!
//! Raw body chunks are cut into frames (`framer`), each frame is matched to a
//! typed event (`decoder`), and the events are folded into the message being
//! produced (`assembler`), yielding the text fragments to hand to a reader.
//! `session` ties the three together for one streamed response.
//!
//! Around it: the protocol's data types (`anthropic_types`), the failures that end
//! a stream (`error`), request bodies (`requests`), image attachments (`images`),
//! and the recovery of events from recorded capture lines (`recorded`).

pub mod anthropic_types;
pub mod text;
pub mod assembler;
pub mod error;
pub mod framer;
pub mod decoder;
pub mod session;
pub mod images;
pub mod requests;
pub mod recorded;
