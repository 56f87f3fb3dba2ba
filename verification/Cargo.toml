[package]
name = "grlx-lsp"
version = "0.1.0"
edition = "2021"
publish = false

[dependencies]
anyhow = "1"
lsp-server = "0.7"
lsp-types = "0.95"
nom = "7"
serde = { version = "1", features = ["derive"] }
serde_json = "1"
