[package]
name = "mod_manager"
version = "0.1.0"
edition = "2021"
publish = false

[dependencies]
chrono = { version = "0.4", default-features = false, features = ["clock", "std"] }
dirs = "6"
futures-util = "0.3"
regex = "1"
reqwest = { version = "0.12", default-features = false, features = ["json", "rustls-tls", "stream"] }
serde = { version = "1", features = ["derive"] }
serde_json = "1"
tauri = { version = "2", default-features = false }
tokio = { version = "1", features = ["fs", "io-util", "macros", "rt", "sync", "time"] }
uuid = { version = "1", features = ["v4"] }
