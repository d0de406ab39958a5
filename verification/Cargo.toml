[package]
name = "kotlin_lsp"
version = "0.1.0"
edition = "2021"
publish = false

[dependencies]
tree-sitter = "=0.22.6"
tree-sitter-kotlin = "=0.3.8"
tree-sitter-java = "=0.21.0"
lexopt = "=0.3.2"
serde = { version = "=1.0.229", features = ["derive"] }
serde_json = "=1.0.154"
log = "=0.4.35"
tower-lsp = "=0.20.0"

[dev-dependencies]
tempfile = "=3.27.0"
