[package]
name = "pallets"
version = "0.1.0"
edition = "2021"
publish = false

[dependencies]
parity-scale-codec = { version = "=3.7.5", features = ["derive"] }
sp-io = "=49.0.0"
sp-core = "=43.0.0"
serde = { version = "=1.0.229", features = ["derive"] }
serde_json = "=1.0.154"
sp-runtime = { version = "*", default-features = false, features = ["std"] }
