[package]
name = "dkim_backend"
version = "0.1.0"
edition = "2021"
publish = false

[dependencies]
viadkim = "*"
fastrand = "2"
ic-cdk = "0.16"
candid = "0.10"
serde = { version = "1", features = ["derive"] }
serde_json = "1"
