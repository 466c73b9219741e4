[package]
name = "gcpv_lynx_export"
version = "0.1.0"
edition = "2021"
publish = false

[dependencies]
anyhow = "*"
csv = "*"
serde = { version = "*", features = ["derive"] }
serde_json = "*"
