//! A small text broadcast service: a wire codec for chat messages, a registry of
//! live connections, the per-connection reading state and the client's input line.

pub mod text;
pub mod message;
pub mod registry;
pub mod reader;
pub mod input;
