use vstd::prelude::*;
use crate::model::message::Message;
use crate::outside::{is_v4_uuid, new_v4_id};

verus! {

/// A conversation: an identifier and its messages in order.
#[derive(Debug)]
pub struct Conversation {
    /// A UUID, as its 128-bit value.
    pub id: u128,
    pub messages: Vec<Message>,
}

impl Conversation {
    /// An empty conversation with a fresh random (version 4) identifier.
    pub fn new() -> (c: Self)
        ensures
            c.messages@ == Seq::<Message>::empty(),
            is_v4_uuid(c.id),
    {
        Conversation { id: new_v4_id(), messages: Vec::new() }
    }

    /// Appends `message` after the messages so far.
    pub fn add_message(&mut self, message: Message)
        ensures
            final(self).messages@ == old(self).messages@.push(message),
            final(self).id == old(self).id,
    {
        self.messages.push(message);
    }
}

} // verus!
