[package]
name = "ttl_store"
version = "0.1.0"
edition = "2021"
publish = false

[dependencies]
sled = "0.34"
tokio = { version = "1", features = ["rt", "rt-multi-thread", "time", "sync"] }
serde = { version = "1", features = ["derive"] }
serde_json = "1"
anyhow = "1"
async-trait = "0.1"
log = "0.4"
chrono = "0.4"
box-convert = { version = "*", features = ["bytesize"] }
