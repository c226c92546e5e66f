//! A terminal chat client for OpenAI-compatible chat-completion servers:
//! its conversation model, input editing, streaming-reply handling and
//! chat-layout computations, with their contracts proved by Verus.

pub mod clock;
pub mod model;
pub mod text;
pub mod outside;
pub mod app;
pub mod llm;
pub mod ui;
