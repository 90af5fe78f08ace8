[package]
name = "firebase_emu"
version = "0.1.5"
edition = "2021"
publish = false

[dependencies]
axum = "0.8"
base64 = "0.22"
crc32c = "0.6"
fs2 = "0.4"
libc = "0.2"
prost = "0.13"
prost-types = "0.13"
reqwest = { version = "0.12", default-features = false, features = ["json"] }
rusqlite = { version = "0.32", features = ["bundled"] }
serde = { version = "1", features = ["derive"] }
serde_json = "1"
thiserror = "2"
tokio = { version = "1", features = ["full"] }
tokio-stream = "0.1"
tonic = "0.13"
tower-http = { version = "0.6", features = ["cors"] }
uuid = { version = "1", features = ["v4"] }
