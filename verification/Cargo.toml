[package]
name = "ast_index"
version = "0.1.0"
edition = "2021"
publish = false

[dependencies]
fst = "=0.4.7"
regex-automata = { version = "=0.1.10", features = ["transducer"] }
strsim = "=0.11.1"
tree-sitter = "=0.20.10"
tree-sitter-cpp = "=0.20.5"
serde = { version = "=1.0.229", features = ["derive"] }
serde_json = "1"
