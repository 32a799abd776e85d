//! One chat turn, decided step by step: the user's message opens it, every streamed
//! delta extends the reply, a stream failure irritates Branlly, and the end of the
//! stream records the whole reply. Awaiting the stream is left to the application.
use vstd::prelude::*;
use vstd::string::*;

use crate::desktop::{bounded_input, chat_input_message, validate_chat_message};
use crate::message::{Message, MessageView, Role};
use crate::state::{
    after_assistant_message, after_error, after_user_message, messages_view, BranllyState,
};
use crate::text::trim;

verus! {

/// What the reply stream produced next.
#[derive(Debug, Clone, PartialEq, Eq)]
pub enum StreamStep {
    /// A piece of the reply.
    Delta(String),
    /// The request or the stream failed, with the failure's text.
    Failed(String),
    /// The stream ended.
    Finished,
}

/// What the application does after a step.
#[derive(Debug, Clone, PartialEq, Eq)]
pub enum ChatAction {
    /// Show this piece of the reply.
    Forward(String),
    /// End the turn with this error.
    Fail(String),
    /// The reply was recorded; end the turn successfully.
    Complete,
}

/// A chat turn in progress: the reply received so far.
#[derive(Debug)]
pub struct ChatTurn {
    response: String,
}

impl ChatTurn {
    /// The reply received so far: the deltas, concatenated in order.
    pub closed spec fn response(&self) -> Seq<char> {
        self.response@
    }

    /// Opens a turn: the message is checked (trimmed, 1 to 4000 characters) and recorded
    /// as the user's; the result is the turn, with an empty reply, and the request context
    /// (system prompt, then the conversation). A refused message leaves the state as it was.
    pub fn begin(domain: &mut BranllyState, message: &str) -> (r: Result<(ChatTurn, Vec<Message>), String>)
        ensures
            match bounded_input(message@, 4000, chat_input_message()) {
                Err(m) => r matches Err(x) && x@ == m && final(domain)@ == old(domain)@,
                Ok(t) => r matches Ok((turn, context)) && turn.response() == Seq::<char>::empty()
                    && after_user_message(old(domain)@, t) == Some(final(domain)@)
                    && messages_view(context@) == seq![
                    MessageView { role: Role::System, content: trim(final(domain)@.config.system_prompt) },
                ] + final(domain)@.conversation,
            },
    {
        let t = match validate_chat_message(message) {
            Ok(t) => t,
            Err(m) => return Err(m),
        };
        proof {
            crate::text::lemma_trim_idempotent(message@);
        }
        match domain.record_user_message(t.as_str()) {
            Ok(()) => {},
            Err(e) => return Err(e.message()),
        }
        let context = domain.chat_context();
        Ok((ChatTurn { response: String::new() }, context))
    }

    /// Applies one step of the stream. A delta extends the reply and is forwarded; a
    /// failure records a recoverable error and ends the turn with its text; the end of
    /// the stream records the whole reply as the assistant's message, or, when the reply
    /// is blank, ends the turn with the empty-message error and records nothing.
    pub fn step(&mut self, domain: &mut BranllyState, event: StreamStep) -> (r: ChatAction)
        ensures
            match event {
                StreamStep::Delta(d) => final(self).response() == old(self).response() + d@
                    && final(domain)@ == old(domain)@ && r == ChatAction::Forward(d),
                StreamStep::Failed(e) => final(self).response() == old(self).response()
                    && final(domain)@ == after_error(old(domain)@) && r == ChatAction::Fail(e),
                StreamStep::Finished => final(self).response() == old(self).response() && (match after_assistant_message(
                    old(domain)@,
                    old(self).response(),
                ) {
                    Some(s) => final(domain)@ == s && r == ChatAction::Complete,
                    None => (r matches ChatAction::Fail(m) && m@ == "message cannot be empty"@)
                        && final(domain)@ == old(domain)@,
                }),
            },
    {
        match event {
            StreamStep::Delta(d) => {
                self.response.append(d.as_str());
                ChatAction::Forward(d)
            },
            StreamStep::Failed(e) => {
                domain.mark_recoverable_error();
                ChatAction::Fail(e)
            },
            StreamStep::Finished => match domain.record_assistant_message(self.response.as_str()) {
                Ok(()) => ChatAction::Complete,
                Err(e) => ChatAction::Fail(e.message()),
            },
        }
    }
}

} // verus!
