[package]
name = "william3"
version = "0.1.0"
edition = "2021"
publish = false

[dependencies]
bab_rs = { version = "=0.8.1", default-features = false, features = ["william3"] }
serde = { version = "=1.0.229", features = ["derive"] }
serde_json = "=1.0.154"
