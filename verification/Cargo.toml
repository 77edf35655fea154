[package]
name = "bonsaidb"
version = "0.1.0"
edition = "2021"
publish = false

[dependencies]
anyhow = "1"
arc-bytes = { version = "0.3", features = ["serde"] }
async-trait = "0.1"
bincode = "1.3"
serde = { version = "1", features = ["derive"] }
thiserror = "1"
tokio = { version = "1", features = ["rt", "sync"] }
url = "2"
