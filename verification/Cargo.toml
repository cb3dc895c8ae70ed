[package]
name = "cfgv"
version = "0.1.0"
edition = "2021"
publish = false

[dependencies]
indexmap = "2"
regex = "1"
serde_json = "1"
yaml_serde = "*"
