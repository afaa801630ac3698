[package]
name = "akri"
version = "0.1.0"
edition = "2021"
publish = false

[dependencies]
blake2 = "0.9"
coap-lite = "*"
chrono = "0.4"
serde = { version = "1", features = ["derive"] }
serde_json = "1"
