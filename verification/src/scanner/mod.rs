pub mod tree_build;
pub mod walker;
