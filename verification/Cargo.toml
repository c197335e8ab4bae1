[package]
name = "ai_companion"
version = "0.1.0"
edition = "2021"
publish = false

[dependencies]
regex = "1"
urlencoding = "2"
serde = { version = "1", features = ["derive"] }
serde_json = "1"
chrono = "0.4"
uuid = { version = "1", features = ["v4"] }
rand = "0.8"
base64 = "0.22"
aes = "0.8"
ecb = "0.1"
meval = "0.2"
walkdir = "2"
zip = { version = "2", default-features = false, features = ["deflate"] }
rusqlite = { version = "0.31", features = ["bundled"] }
reqwest = { version = "0.12", default-features = false, features = ["json", "stream", "rustls-tls"] }
tokio = { version = "1", features = ["full"] }
futures-util = "0.3"
anyhow = "1"
log = "0.4"
env_logger = "0.11"
sysinfo = "0.30"
arboard = { version = "3", default-features = false }
