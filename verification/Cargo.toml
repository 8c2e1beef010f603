[package]
name = "mutator_set"
version = "0.1.0"
edition = "2021"
publish = false

[dependencies]
twenty-first = "*"
rand = "0.9"
num-traits = "0.2"
itertools = "*"
anyhow = "1"
serde = { version = "1", features = ["derive"] }
serde_json = "1"
bincode = "1"
bytes = "1"
sqlite = "*"
tokio = { version = "1", features = ["net", "rt-multi-thread", "macros"] }
axum = "0.8"
axum-extra = { version = "0.10", features = ["erased-json"] }
tower-http = { version = "0.6", features = ["cors", "trace", "limit"] }
tracing = "0.1"
