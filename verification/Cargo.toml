[package]
name = "globstar"
version = "0.1.0"
edition = "2021"
publish = false

[dependencies]
tree-sitter = "=0.20.10"
tree-sitter-bash = "=0.20.5"
tree-sitter-dockerfile = "=0.1.0"
tree-sitter-elm = "=5.6.6"
tree-sitter-go = "=0.20.0"
tree-sitter-ruby = "=0.20.1"
tree-sitter-yaml = "=0.0.1"
regex = "=1.13.1"
serde = { version = "=1.0.229", features = ["derive"] }
serde_json = "=1.0.151"
