[package]
name = "moon_lsp"
version = "0.1.0"
edition = "2021"
publish = false

[dependencies]
anyhow = "1"
lsp-types = "0.97"
serde = { version = "1", features = ["derive"] }
serde_json = "1"
