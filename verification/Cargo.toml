[package]
name = "niuma-timer"
version = "0.1.0"
edition = "2021"
publish = false

[dependencies]
chrono = "=0.4.45"
serde = { version = "=1.0.229", features = ["derive"] }
serde_json = "=1.0.154"
rusqlite = { version = "=0.32.1", features = ["bundled"] }
base64 = "=0.22.1"
png = "=0.17.16"
dirs = "=5.0.1"
reqwest = { version = "=0.12.28", default-features = false, features = ["rustls-tls", "json", "blocking"] }
