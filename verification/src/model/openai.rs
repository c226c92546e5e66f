//! The chat model as an OpenAI-compatible chat-completion API sees it.

use vstd::prelude::*;
use crate::clock::{clock_text, format_clock};
use crate::outside::{is_v4_uuid, local_time_now, new_v4_id};

verus! {

/// Who wrote a message; sent to the API as `user` or `assistant`.
#[derive(Debug, Clone, Copy, PartialEq, Eq, Structural)]
pub enum Role {
    User,
    Assistant,
}

/// The label under which a role is shown to the user.
pub open spec fn role_label(role: Role) -> Seq<char> {
    match role {
        Role::User => seq!['U', 's', 'e', 'r'],
        Role::Assistant => seq!['A', 's', 's', 'i', 's', 't', 'a', 'n', 't'],
    }
}

impl Role {
    /// The role's display label: `User` or `Assistant`.
    pub fn to_string(&self) -> (label: String)
        ensures
            label@ == role_label(*self),
    {
        match self {
            Role::User => {
                let s = String::from_str("User");
                proof {
                    reveal_strlit("User");
                }
                s
            },
            Role::Assistant => {
                let s = String::from_str("Assistant");
                proof {
                    reveal_strlit("Assistant");
                }
                s
            },
        }
    }
}

/// A chat message; `timestamp` is the local time it was made, as
/// `HH:MM:SS`, and is not sent to the API.
#[derive(Debug)]
pub struct Message {
    pub role: Role,
    pub content: String,
    pub timestamp: String,
}

impl Message {
    /// A message from `role` with `content`, stamped with the time now.
    pub fn new(role: Role, content: String) -> (m: Self)
        ensures
            m.role == role,
            m.content == content,
            exists|t: crate::clock::LocalTime| t.wf() && m.timestamp@ == clock_text(t),
    {
        let now = local_time_now();
        Message { role, content, timestamp: format_clock(&now) }
    }
}

impl Clone for Message {
    fn clone(&self) -> (m: Self)
        ensures
            m == *self,
    {
        Message { role: self.role, content: self.content.clone(), timestamp: self.timestamp.clone() }
    }
}

/// The default model name of a new conversation.
pub open spec fn default_model() -> Seq<char> {
    "default"@
}

/// The default chat-completion endpoint of a new conversation.
pub open spec fn default_api_url() -> Seq<char> {
    "http://localhost:8000/v1/chat/completions"@
}

/// A conversation with the model and endpoint it talks to.
#[derive(Debug)]
pub struct Conversation {
    /// A UUID, as its 128-bit value.
    pub id: u128,
    pub model: String,
    pub api_url: String,
    pub messages: Vec<Message>,
}

impl Conversation {
    /// An empty conversation with a fresh random (version 4) identifier, the model
    /// `default` and the endpoint `http://localhost:8000/v1/chat/completions`.
    pub fn new() -> (c: Self)
        ensures
            c.messages@ == Seq::<Message>::empty(),
            is_v4_uuid(c.id),
            c.model@ == default_model(),
            c.api_url@ == default_api_url(),
    {
        Conversation {
            id: new_v4_id(),
            model: String::from_str("default"),
            api_url: String::from_str("http://localhost:8000/v1/chat/completions"),
            messages: Vec::new(),
        }
    }

    /// Appends `message` after the messages so far.
    pub fn add_message(&mut self, message: Message)
        ensures
            final(self).messages@ == old(self).messages@.push(message),
            final(self).id == old(self).id,
            final(self).model == old(self).model,
            final(self).api_url == old(self).api_url,
    {
        self.messages.push(message);
    }
}

/// The part of a streamed reply that one choice adds.
#[derive(Debug)]
pub struct Delta {
    pub role: Option<String>,
    pub content: Option<String>,
    pub reasoning_content: Option<String>,
}

/// One choice of a streamed chunk.
#[derive(Debug)]
pub struct Choice {
    pub index: u32,
    pub delta: Delta,
    pub finish_reason: Option<String>,
}

/// One `data:` event of a streamed chat completion.
#[derive(Debug)]
pub struct ChatCompletionChunk {
    pub id: String,
    pub object: String,
    pub created: u64,
    pub model: String,
    pub choices: Vec<Choice>,
}

} // verus!
