[package]
name = "dusk"
version = "0.1.0"
edition = "2021"
publish = false

[dependencies]
anyhow = "1"
clap = { version = "4", features = ["derive"] }
crossterm = "0.28"
dirs = "5"
fuzzy-matcher = "0.3"
humansize = "2"
ignore = "0.4"
ratatui = "0.29"
rayon = "1"
serde = { version = "1", features = ["derive"] }
toml = "0.8"
trash = "5"
tree_magic_mini = "3"
unicode-width = "0.2"
