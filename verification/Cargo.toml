[package]
name = "clipplus"
version = "0.1.0"
edition = "2021"
publish = false

[dependencies]
notify = "6.1"
png = "0.17"
rusqlite = { version = "0.31", features = ["bundled"] }
serde = { version = "1", features = ["derive"] }
serde_json = "1"
sha2 = "0.10"
