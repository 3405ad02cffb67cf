//! What the node does: serve commands, run a connection's request cycle,
//! and introduce itself to a master.

pub mod command_handlers;
pub mod command_listener;
pub mod replica_handshake;
pub mod startup;
