[package]
name = "rust_cms_json_parser"
version = "0.1.0"
edition = "2021"
publish = false

[dependencies]
csv = "1"
mysql = "*"
serde = { version = "1", features = ["derive"] }
serde_json = "1"
