[package]
name = "fingerprint_audit"
version = "0.1.0"
edition = "2021"
publish = false

[dependencies]
serde = { version = "*", features = ["derive"] }
serde_json = "*"
anyhow = "*"
async-std = { version = "*", features = ["attributes"] }
futures = "*"
isahc = { version = "*", features = ["json"] }
ajour-core = "*"
