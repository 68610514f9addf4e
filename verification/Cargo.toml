[package]
name = "bakehouse"
version = "0.1.0"
edition = "2021"
publish = false

[dependencies]
csv = "1"
encoding_rs = "0.8"
chrono = "0.4"
rand = "0.9"
uuid = { version = "1", features = ["v4"] }
serde = { version = "1", features = ["derive"] }
serde_json = "1"
thiserror = "2"
rusqlite = { version = "*", features = ["bundled"] }
keyring = "3"
