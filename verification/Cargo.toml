[package]
name = "roxmltree_to_serde"
version = "0.1.0"
edition = "2021"
publish = false

[dependencies]
roxmltree = "0.20"
serde_json = "1"
regex = "1"
