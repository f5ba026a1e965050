[package]
name = "chaos"
version = "0.1.0"
edition = "2021"
publish = false

[dependencies]
chrono = { version = "0.4", features = ["serde"] }
indexmap = { version = "2", features = ["serde"] }
saphyr = "0.0.6"
serde = { version = "1", features = ["derive", "rc"] }
serde_json = "1"
thiserror = "2"
toml = "0.9"
