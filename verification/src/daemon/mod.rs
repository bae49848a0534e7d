//! The daemon: what it knows, and what it does.

pub mod attach;
pub mod bell;
pub mod clients;
pub mod create;
pub mod cycle;
pub mod hydrate;
pub mod lifecycle;
pub mod recent_dirs;
pub mod resolve;
pub mod state;
