[package]
name = "llmboard-core"
version = "0.1.0"
edition = "2021"
publish = false

[dependencies]
anyhow = "1"
csv = "1"
serde = { version = "1", features = ["derive"] }
serde_json = "1"
tracing = "0.1"
tracing-subscriber = "0.3"
waki = "*"
zip = { version = "*", default-features = false, features = ["deflate"] }
