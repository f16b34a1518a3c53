[package]
name = "astraea"
version = "0.1.0"
edition = "2021"
publish = false

[dependencies]
dashmap = "6"
globset = "0.4"
ipnet = "2"
libc = "0.2"
once_cell = "1"
serde = { version = "1", features = ["derive"] }
serde_json = "1"
toml = "0.8"
tracing = "0.1"
tracing-subscriber = { version = "0.3", features = ["env-filter"] }
