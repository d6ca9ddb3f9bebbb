//! A line-oriented, insert-only key-value store: the command grammar, the
//! store and the per-connection session logic, with their contracts.

pub mod client;
pub mod commands;
pub mod database;
pub mod pattern;
pub mod server;
pub mod text;
