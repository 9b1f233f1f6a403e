[package]
name = "ogma_core"
version = "0.1.0"
edition = "2021"
publish = false

[dependencies]
chrono = "=0.4.45"
serde = { version = "=1.0.229", features = ["derive"] }
serde_json = "=1.0.154"
reqwest = { version = "=0.13.5", default-features = false, features = ["json", "multipart"] }
tokio = { version = "=1.54.1", features = ["rt-multi-thread", "macros", "time", "fs", "sync"] }
rusqlite = { version = "=0.41.1", features = ["bundled"] }
symphonia = { version = "=0.5.5", features = ["mp3", "aac", "isomp4"] }
cpal = "=0.18.2"
rmcp = { version = "=3.8.0", features = ["server", "transport-io", "macros"] }
tracing = "=0.1.44"
uuid = { version = "=1.29.0", features = ["v4"] }
keyring = { version = "3", features = ["apple-native", "windows-native"] }

[dev-dependencies]
tempfile = "=3.27.0"
