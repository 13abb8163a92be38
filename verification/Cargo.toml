[package]
name = "chunk_world"
version = "0.1.0"
edition = "2021"
publish = false

[dependencies]
libc = "=0.2.191"
reqwest = { version = "=0.13.5", default-features = false, features = ["blocking"] }
serde = { version = "=1.0.229", features = ["derive"] }
serde_json = "=1.0.154"
sfml = "=0.14.0"
