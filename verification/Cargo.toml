[package]
name = "review_dedup"
version = "0.1.0"
edition = "2021"
publish = false

[dependencies]
regex = "1"
chrono = "0.4"
serde_json = "1"
rusqlite = { version = "*", features = ["bundled"] }
