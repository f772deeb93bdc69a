//! Verified core of the Pie serving stack.

pub mod autoresearch;
pub mod canon;
pub mod chat;
pub mod codex;
pub mod collective;
pub mod condense;
pub mod fnv;
pub mod format;
pub mod gateway;
pub mod json;
pub mod ltx_2;
pub mod markup;
pub mod masks;
pub mod metal;
pub mod npr;
pub mod openclaw;
pub mod replay;
pub mod rollout;
pub mod serving;
pub mod text;
