//! A small in-memory key-value node that speaks the array-of-bulk-strings
//! wire protocol.
//!
//! The crate holds the wire codec, the command dispatcher over a shared
//! store, the per-connection request cycle and the replica handshake, each as
//! functions on plain values with machine-checked contracts. Sockets, clocks,
//! locks and tasks live with the caller, which feeds these functions events
//! and carries out the actions they return.
//!
//! Names, parameters, keys, values and replies are byte strings: the wire
//! format counts bytes and puts no limit on what a payload may hold.

pub mod error;
pub mod models;
pub mod node;
pub mod resp_parser;
pub mod utils;
