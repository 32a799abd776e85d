//! Conversation entries.
use vstd::prelude::*;

use crate::text::{trim, trimmed};

verus! {

/// A role accepted by Ollama's chat protocol.
#[derive(Debug, Clone, Copy, PartialEq, Eq, Structural)]
pub enum Role {
    /// Instructions defining Branlly's behavior.
    System,
    /// A human message.
    User,
    /// A Branlly response.
    Assistant,
}

/// A normalized conversation entry.
#[derive(Debug, PartialEq, Eq)]
pub struct Message {
    /// Author role.
    pub role: Role,
    /// UTF-8 text with leading and trailing whitespace removed.
    pub content: String,
}

/// A message with its text as a character sequence.
pub struct MessageView {
    pub role: Role,
    pub content: Seq<char>,
}

impl View for Message {
    type V = MessageView;

    open spec fn view(&self) -> MessageView {
        MessageView { role: self.role, content: self.content@ }
    }
}

impl Clone for Message {
    fn clone(&self) -> (r: Self)
        ensures
            r == *self,
    {
        Message { role: self.role, content: self.content.clone() }
    }
}

impl Message {
    /// Creates a normalized message: the content is trimmed. Validation is performed
    /// by `BranllyState`.
    pub fn new(role: Role, content: &str) -> (r: Self)
        ensures
            r@ == (MessageView { role, content: trim(content@) }),
    {
        Message { role, content: trimmed(content) }
    }
}

} // verus!
