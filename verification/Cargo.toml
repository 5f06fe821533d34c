[package]
name = "bet_chain"
version = "0.1.0"
edition = "2021"
publish = false

[dependencies]
sha256 = "1"
rand = "0.8"
rocksdb = "*"
serde = { version = "1", features = ["derive"] }
serde_json = "1"
tokio = { version = "1", features = ["full"] }
