[package]
name = "blockchain"
version = "0.1.0"
edition = "2021"
publish = false

[dependencies]
chrono = { version = "0.4", default-features = false, features = ["clock"] }
hex = "0.4"
serde_json = "1"
sha2 = "0.10"
