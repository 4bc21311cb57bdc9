[package]
name = "sofka"
version = "0.1.0"
edition = "2021"
publish = false

[dependencies]
unicode-width = "=0.2.3"
serde_json = "=1.0.154"
k8s-openapi = { version = "=0.29.0", features = ["latest"] }
jiff = { version = "=0.2.39", features = ["std"] }
memchr = "=2.8.3"
toml = "=1.1.8"
serde = { version = "=1.0.229", features = ["derive"] }
serde_yaml = "=0.9.34"
