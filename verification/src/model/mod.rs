pub mod metadata;
pub mod node;
pub mod order;
pub mod sorting;
pub mod time;

pub use node::{DiskNode, NodeType};
pub mod calendar;
