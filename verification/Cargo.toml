[package]
name = "value_parser"
version = "0.1.0"
edition = "2021"
publish = false

[dependencies]
anyhow = "1"
gdbmi = "*"
serde_json = "1"
