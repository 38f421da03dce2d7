[package]
name = "wc-storage"
version = "0.1.0"
edition = "2021"
publish = false

[dependencies]
camino = "1"
fs2 = "0.4"
log = "0.4"
rusqlite = { version = "*", features = ["bundled"] }
serde = { version = "1", features = ["derive"] }
serde_json = "1"
