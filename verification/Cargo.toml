[package]
name = "confmap"
version = "1.0.0"
edition = "2021"
publish = false

[dependencies]
serde_json = "*"
once_cell = "*"
