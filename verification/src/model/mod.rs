pub mod conversation;
pub mod message;
pub mod openai;
pub mod role;
