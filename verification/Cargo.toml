[package]
name = "data_lineage_tracker"
version = "0.1.0"
edition = "2021"

[dependencies]
tree-sitter = "0.20"
tree-sitter-javascript = "0.20"
tree-sitter-graph = { version = "0.11", default-features = false }
