[package]
name = "kibitz"
version = "0.1.0"
edition = "2021"
publish = false

[dependencies]
shakmaty = "0.27"
pgn-reader = "0.26"
serde = { version = "1", features = ["derive"] }
serde_json = "1"
sha2 = "0.10"
