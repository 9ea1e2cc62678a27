[package]
name = "code_graph"
version = "0.1.0"
edition = "2021"
publish = false

[dependencies]
egui = { version = "0.28", default-features = false }
egui_extras = { version = "0.28", default-features = false }
lazy_static = "1"
serde = { version = "1", features = ["derive"] }
serde_json = "1"
tree-sitter = "=0.22.6"
tree-sitter-c = "=0.21.4"
tree-sitter-java = "=0.21.0"
tree-sitter-javascript = "=0.21.4"
tree-sitter-rust = "=0.21.2"
uuid = { version = "=1.29.0", features = ["v4"] }
