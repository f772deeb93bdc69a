//! The chat-completions inferlets: prompt building, the prefix cache, decoding
//! plans, the turn state machines and the handler.

pub mod apc;
pub mod coder_xml;
pub mod drive;
pub mod engine;
pub mod filter;
pub mod generate;
pub mod handler;
pub mod laws;
pub mod prompt;
pub mod render;
pub mod session;
pub mod streaming;
pub mod turn;
