//! In-memory state and diagnostics for a console that watches the tasks,
//! resources and async operations of a running asynchronous program.
//!
//! The crate keeps a compact mirror of what the watched program reports:
//! strings are interned, wire identifiers are mapped to small local ones,
//! entities live in a keyed store, durations are derived on read from raw
//! timestamps, and a set of lints counts the entities each one applies to.
//! Every function is verified against its contract.

pub mod intern;
pub mod state;
pub mod text;
pub mod time;
pub mod view;
pub mod warnings;
pub mod wire;
