[package]
name = "budget"
version = "0.1.0"
edition = "2021"
publish = false

[dependencies]
anyhow = "1"
chrono = "0.4"
chrono-tz = "0.10"
csv = "1"
dateparser = "0.2"
libsodium-sys = "0.2"
serde = { version = "1", features = ["derive"] }
serde_json = "1"
