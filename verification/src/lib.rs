//! The logic of a desktop chat client for OpenAI and Azure chat models: rendering of
//! chat replies into text blocks, text-to-speech request shaping, chat sessions and
//! their ordering, the streaming protocol, and the per-session chat state.
use vstd::prelude::*;

pub mod text;
pub mod render;
pub mod audio;
pub mod chat;
pub mod session;
pub mod config;
pub mod openai;
pub mod base;

verus! {
} // verus!
