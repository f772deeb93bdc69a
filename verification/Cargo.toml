[package]
name = "pie"
version = "0.1.0"
edition = "2021"
publish = false

[dependencies]
axum = "0.8"
blake3 = "1"
futures = "0.3"
serde = { version = "1", features = ["derive"] }
serde_json = "1"
tokio = { version = "1", features = ["full"] }
wstd = "*"
