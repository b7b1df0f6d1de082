[package]
name = "protohackers"
version = "0.1.0"
edition = "2021"
publish = false

[dependencies]
anyhow = "1"
primal = "0.3"
serde = { version = "1", features = ["derive"] }
serde_json = "1"
tokio = { version = "1", features = ["io-util", "macros", "net", "rt-multi-thread"] }
