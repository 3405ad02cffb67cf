//! The data the node works on: the shared store and the per-request context.

pub mod connection_context;
pub mod db;
