//! Core of a rhythm-game multiplayer session server: the length-prefixed
//! wire codec, the triple-indexed session directory, the chat-channel
//! registry, and the per-poll dispatch orchestrator.

pub mod channel;
mod clock;
pub mod codec;
pub mod directory;
pub mod handlers;
pub mod laws;
pub mod modes;
pub mod orchestrator;
pub mod packets;
pub mod reader;
pub mod session;
