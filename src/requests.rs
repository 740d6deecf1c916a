//! Request bodies that carry no sampling parameters.

use vstd::prelude::*;

use crate::anthropic_types::Message;

verus! {

/// The simple form of a message request: model, length budget, turns and streaming.
#[derive(Debug, Clone)]
pub struct SimpleMessageRequest<'a> {
    pub model: &'a str,
    pub max_tokens: u32,
    pub messages: Vec<Message<'a>>,
    pub stream: bool,
}

/// Data about the request that the service keeps, such as an opaque user id.
#[derive(Debug, Clone, Copy)]
pub struct Metadata<'a> {
    pub user_id: Option<&'a str>,
}

} // verus!
