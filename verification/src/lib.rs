//! An in-memory key-value cache speaking a small line-oriented text protocol.
//!
//! The crate holds the protocol engine only: the tokenizer and command
//! parser, the store with lazily expiring entries, the reply encoder and the
//! per-connection state machine. Sockets, threads and the lock that guards
//! the shared store belong to the program that embeds the engine.

pub mod clock;
pub mod connection;
pub mod guarantees;
pub mod handler;
pub mod number;
pub mod reply;
pub mod request;
pub mod store;
pub mod text;
