//! Connections to remote hosts.

pub mod manager;
pub mod ports;
