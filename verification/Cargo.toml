[package]
name = "homa"
version = "0.1.0"
edition = "2021"
publish = false

[dependencies]
async-std = "1"
bincode = "1"
clap = { version = "4", features = ["derive"] }
crc32fast = "1"
lazy_static = "1"
pnet = "0.34"
priority-queue = "1"
rand = "0.8"
serde = { version = "1", features = ["derive"] }
serde_repr = "0.1"
tokio = { version = "1", features = ["full"] }
