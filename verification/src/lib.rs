//! Monitoring logic for OpenCode sessions.

pub mod agent_trait;
pub mod cli;
pub mod config;
pub mod daemon;
pub mod discovery;
pub mod ipc;
pub mod keyed;
pub mod opencode;
pub mod path;
pub mod shell;
pub mod ssh;
pub mod text;
pub mod tui;
pub mod types;
