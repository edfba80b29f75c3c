[package]
name = "anime_manager"
version = "0.1.0"
edition = "2021"
publish = false

[dependencies]
regex = "=1.13.1"
serde = { version = "=1.0.229", features = ["derive"] }
serde_json = "=1.0.154"
thiserror = "=2.0.21"
uuid = { version = "=1.29.0", features = ["v4"] }
dirs = "=6.0.0"
walkdir = "=2.5.0"
rusqlite = { version = "=0.37.0", features = ["bundled"] }
tokio = { version = "=1.54.1", features = ["full"] }
reqwest = { version = "0.12", default-features = false, features = ["json", "rustls-tls"] }
quick-xml = { version = "*", features = ["serialize"] }
