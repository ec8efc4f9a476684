[package]
name = "treemd"
version = "0.1.0"
edition = "2021"
publish = false

[dependencies]
pulldown-cmark = { version = "*", default-features = false }
clap = { version = "4", features = ["derive"] }
notify = "*"
ratatui = "*"
unicode-width = "*"
serde = { version = "1", features = ["derive"] }
serde_json = "1"
