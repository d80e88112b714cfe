[package]
name = "mdlinks"
version = "0.1.0"
edition = "2021"
publish = false

[dependencies]
markdown = "*"
serde_json = "*"
