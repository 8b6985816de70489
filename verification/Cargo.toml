[package]
name = "mewt"
version = "0.1.0"
edition = "2021"
publish = false

[dependencies]
chrono = { version = "=0.4.45", default-features = false, features = ["std", "clock"] }
clap = { version = "=4.6.7", features = ["derive"] }
console = "=0.16.6"
ctrlc = "=3.5.2"
glob = "=0.3.4"
globset = "=0.4.20"
hex = "=0.4.3"
log = "=0.4.34"
once_cell = "=1.21.4"
serde = { version = "=1.0.229", features = ["derive"] }
serde_json = "=1.0.154"
sha2 = "=0.10.9"
sqlx = { version = "=0.8.6", default-features = false, features = ["runtime-tokio", "sqlite"] }
thiserror = "=2.0.21"
tokio = { version = "=1.54.1", features = ["rt-multi-thread", "macros", "process", "time", "io-util", "sync"] }
toml = "=1.1.8"
tree-sitter = "=0.27.1"
tree-sitter-javascript = "=0.25.0"
tree-sitter-rust = "=0.24.2"
tree-sitter-solidity = "=1.2.13"
tree-sitter-tolk = "*"
tree-sitter-typescript = "=0.23.2"
