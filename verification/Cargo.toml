[package]
name = "yummy_backend"
version = "0.1.0"
edition = "2021"
publish = false

[dependencies]
serde_json = "*"
serde = { version = "*", features = ["derive"] }
candid = "*"
ic-cdk = "*"
urlencoding = "*"
