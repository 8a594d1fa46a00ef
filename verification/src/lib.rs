//! Disk usage analysis: the tree model, the scanner's bookkeeping, and the
//! state machines behind the interactive views.

pub mod config;
pub mod model;
pub mod scanner;
pub mod strings;
pub mod tui;
