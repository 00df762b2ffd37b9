//! An in-memory key-value store served over a `;`-framed text protocol: the
//! frame reassembler, the command evaluator with its per-connection
//! authentication bit, and the store with lazy expiry.

pub mod client_state;
pub mod commands;
pub mod config;
pub mod frame;
pub mod laws;
pub mod memory;
pub mod text;
pub mod value;
