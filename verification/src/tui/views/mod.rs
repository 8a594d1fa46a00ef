pub mod bar;
pub mod nav;
pub mod sunburst;
pub mod tree;
pub mod treemap;
pub mod sorted_rows;
