[package]
name = "chirograph"
version = "0.1.0"
edition = "2021"
publish = false

[dependencies]
serde = { version = "1", features = ["derive"] }
serde_json = "1"
sha2 = "*"
tree-sitter = "*"
tree-sitter-java = "*"
tree-sitter-python = "*"
yaml_serde = "*"
