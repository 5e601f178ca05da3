[package]
name = "voice_keyboard_core"
version = "0.1.0"
edition = "2021"
publish = false

[dependencies]
base64 = "=0.22.1"
hmac = "=0.12.1"
rusqlite = { version = "=0.32.1", features = ["bundled"] }
serde = { version = "=1.0.229", features = ["derive"] }
serde_json = { version = "=1.0.154", features = ["preserve_order"] }
sha2 = "=0.10.9"
snow = "=0.9.6"
thiserror = "=2.0.21"
uniffi = "=0.29.5"
uuid = { version = "=1.29.0", features = ["v4", "serde"] }
x25519-dalek = "=2.0.1"
zeroize = "=1.9.1"

[dev-dependencies]
tempfile = "=3.27.0"
