[package]
name = "dust"
version = "0.1.0"
edition = "2021"
publish = false

[dependencies]
anyhow = "1"
async-fs = "1"
blake3 = { version = "1", features = ["pure"] }
futures = "0.3"
serde_json = "1"
shellexpand = "2"
