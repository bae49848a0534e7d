//! The terminal interface.

pub mod app;
pub mod detail;
pub mod interaction;
pub mod screen;
pub mod session_list;
pub mod session_tree;
pub mod singleton;
pub mod status_bar;
pub mod view;
