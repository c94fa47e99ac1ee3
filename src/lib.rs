//! Core of a desktop assistant that streams a local model's output.
//!
//! The model writes its reasoning between think tags and its final answer
//! between answer tags. This library turns the raw token text into two clean,
//! ordered streams: it repairs byte-level tokenizer artifacts ([`normalize`]),
//! sorts text into channels while tolerating tags split across tokens
//! ([`classifier`]), and decides, token by token, what one generation request
//! emits and when it is over ([`generation`]).

pub mod chat;
pub mod classifier;
pub mod generation;
pub mod normalize;
pub mod tags;
mod text;
