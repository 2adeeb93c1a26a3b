[package]
name = "rome_analyze"
version = "0.1.0"
edition = "2021"
publish = false

[dependencies]
anyhow = "*"
indexmap = "*"
lsp-server = "*"
lsp-types = "*"
serde_json = "*"
