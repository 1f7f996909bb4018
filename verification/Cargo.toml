[package]
name = "loom"
version = "0.4.0"
edition = "2021"
publish = false

[dependencies]
generator = "=0.6.25"
lock_api = "0.4"
scoped-tls = "=1.0.1"
serde = { version = "=1.0.229", features = ["derive"] }
serde_json = "=1.0.154"
