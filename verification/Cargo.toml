[package]
name = "chatbox"
version = "0.1.0"
edition = "2021"
publish = false

[dependencies]
anyhow = "1"
bytes = "1"
chrono = "0.4"
env_logger = "0.10"
hound = "3.5"
lazy_static = "1.4"
log = "0.4"
platform-dirs = "0.3"
rand = "0.8"
reqwest = { version = "0.11", default-features = false, features = ["json", "stream", "socks"] }
rusqlite = { version = "0.29", features = ["bundled"] }
serde = { version = "1", features = ["derive"] }
serde_derive = "1"
serde_json = "1"
tokio = { version = "1", features = ["full"] }
tokio-stream = "0.1"
uuid = { version = "1", features = ["v4"] }
