[package]
name = "guard_lang"
version = "0.1.0"
edition = "2021"
publish = false

[dependencies]
regex = "1"
indexmap = "1"
yaml-rust = "0.4"
Inflector = "0.11"
serde = { version = "1", features = ["derive"] }
serde_json = "1"
clap = "2"
itertools = "0.10"
