use vstd::prelude::*;
use crate::clock::LocalTime;
use crate::model::role::Role;
use crate::outside::local_time_now;

verus! {

/// A chat message with the local time at which it was made.
#[derive(Debug)]
pub struct Message {
    pub role: Role,
    pub content: String,
    pub timestamp: LocalTime,
}

impl Message {
    /// A message from `role` with `content`, stamped with the time now.
    pub fn new(role: Role, content: String) -> (m: Self)
        ensures
            m.role == role,
            m.content == content,
            m.timestamp.wf(),
    {
        Message { role, content, timestamp: local_time_now() }
    }
}

impl Clone for Message {
    fn clone(&self) -> (m: Self)
        ensures
            m == *self,
    {
        Message { role: self.role, content: self.content.clone(), timestamp: self.timestamp }
    }
}

} // verus!
