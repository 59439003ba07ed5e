[package]
name = "webui"
version = "0.1.0"
edition = "2021"
publish = false

[dependencies]
prost = "=0.14.4"
thiserror = "=2.0.21"
serde = { version = "=1.0.229", features = ["derive"] }
serde_json = "=1.0.154"
clap = { version = "=4.6.7", features = ["derive"] }
tree-sitter = "0.25"
tree-sitter-html = "0.23"
