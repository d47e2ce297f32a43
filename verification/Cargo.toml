[package]
name = "bwq_linter"
version = "0.2.0"
edition = "2021"
publish = false

[dependencies]
unicode-width = "*"
clap = { version = "4", features = ["derive"] }
ignore = "*"
rayon = "*"
serde = { version = "1", features = ["derive"] }
serde_json = "1"
lsp-server = "*"
lsp-types = "*"
crossbeam-channel = "*"
lru = "*"
