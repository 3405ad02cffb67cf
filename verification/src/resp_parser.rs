//! The wire codec: requests are arrays of bulk strings, replies are status
//! lines, bulk strings or the null bulk string.

pub mod commands;
pub mod data_types;
pub mod shared;
