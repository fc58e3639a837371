[package]
name = "es_system"
version = "0.1.0"
edition = "2021"
publish = false

[dependencies]
glob = "0.3"
indexmap = { version = "2", features = ["serde"] }
regex = "1"
serde = { version = "1", features = ["derive"] }
serde_json = "1"
serde_yaml = "0.9"
