[package]
name = "landiag"
version = "0.1.0"
edition = "2021"
publish = false

[dependencies]
tokio = { version = "=1.53.2", features = ["full"] }
serde = { version = "=1.0.229", features = ["derive"] }
serde_json = "1"
thiserror = "=2.0.21"
pnet = "=0.35.0"
default-net = "=0.22.0"
