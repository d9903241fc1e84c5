[package]
name = "nola"
version = "0.1.0"
edition = "2021"
publish = false

[dependencies]
url = "2"
regex-syntax = "0.8"
serde = { version = "1", features = ["derive"] }
serde_json = "1"
chrono = "0.4"
tokio = { version = "1", features = ["fs", "rt-multi-thread", "macros", "sync"] }
reqwest = { version = "0.12", default-features = false, features = ["rustls-tls"] }
