//! The Responses server for the Codex client: its items and resources, content
//! addresses, rendering and the streaming turn.

pub mod drive;
pub mod handler;
pub mod laws;
pub mod replay;
pub mod session;
pub mod types;
