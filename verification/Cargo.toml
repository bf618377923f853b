[package]
name = "rust_and_steel"
version = "0.1.0"
edition = "2021"
publish = false

[dependencies]
rand = "0.4"
serde = { version = "1.0", features = ["derive"] }
serde_json = "1.0"
tcod = "0.15"
