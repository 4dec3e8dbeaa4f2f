[package]
name = "tokscale"
version = "0.1.0"
edition = "2021"
publish = false

[dependencies]
sha2 = "0.10"
rusqlite = { version = "*", features = ["bundled"] }
chrono = "0.4"
dirs = "*"
anyhow = "1"
serde = { version = "1", features = ["derive"] }
serde_json = "1"
