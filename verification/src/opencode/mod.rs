//! OpenCode's HTTP interface.

pub mod adapter;
pub mod client;
