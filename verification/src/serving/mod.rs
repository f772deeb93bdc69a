//! The chat-completions surface: request types, the rendering plan, content
//! addresses, the visible-text filter, chunk construction and salvage.

pub mod context_policy;
pub mod digest;
pub mod error;
pub mod filter;
pub mod laws;
pub mod render;
pub mod salvage;
pub mod session;
pub mod streaming;
pub mod types;
