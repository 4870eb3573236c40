[package]
name = "reposnap"
version = "0.1.0"
edition = "2021"
publish = false

[dependencies]
ignore = "0.4"
lru = "*"
tiktoken-rs = "*"
serde = { version = "1", features = ["derive"] }
serde_json = "1"
tokio = { version = "1", features = ["rt", "rt-multi-thread"] }
futures = "0.3"
notify = "*"
tracing = "0.1"
