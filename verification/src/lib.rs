//! A session of a debugging server: which requests an operation of a client
//! leads to, what the texts that gdb prints say, and what the client is told.
//!
//! The library decides and does not act. [`session::SessionCore`] asks for
//! things one by one, and is handed what came of each. [`plan`] says what it
//! asks for and tells. What follows from that is said by [`laws`] of every
//! operation, by [`operation_laws`] of each one in a dialogue with gdb
//! ([`dialogues`]), by [`state_laws`], [`output_laws`] and [`readings`] of what
//! is read from gdb, and by [`text_laws`] of the texts below all that.

pub mod conduct;
pub mod config;
pub mod dialogues;
pub mod error;
pub mod gdb_output;
pub mod laws;
pub mod number;
pub mod operation;
pub mod operation_laws;
pub mod outcomes;
pub mod output_laws;
pub mod paths;
pub mod plan;
pub mod protocol;
pub mod readings;
pub mod scan;
pub mod session;
pub mod state_laws;
pub mod text;
pub mod text_laws;
