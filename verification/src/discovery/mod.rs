//! Finding OpenCode processes and their sessions.

pub mod local;
pub mod panes;
pub mod parts;
pub mod remote;
pub mod scan;
