[package]
name = "tskv"
version = "0.1.0"
edition = "2021"
publish = false

[dependencies]
tokio = { version = "1", features = ["sync"] }
snap = "1"
rust-crypto = "0.2"
regex = "1"
serde = { version = "1", features = ["derive"] }
walkdir = "2"
