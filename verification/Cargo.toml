[package]
name = "nerve"
version = "0.1.0"
edition = "2021"
publish = false

[dependencies]
blake3 = { version = "1", features = ["pure"] }
serde = { version = "1", features = ["derive"] }
serde_json = "1"
toml = "*"
ignore = "0.4"
thiserror = "*"
tree-sitter = "*"
