[package]
name = "arnis_tiles"
version = "0.1.0"
edition = "2021"
publish = false

[dependencies]
rusqlite = { version = "0.37", features = ["bundled"] }
serde = { version = "1", features = ["derive"] }
serde_json = "1"
