[package]
name = "liquidium_test_backend"
version = "0.1.0"
edition = "2021"
publish = false

[dependencies]
base64 = "0.22"
bitcoin = "0.32"
candid = "0.10"
ciborium = "0.2"
hex = "0.4"
ic-cdk = "0.16"
ordinals = "*"
serde = { version = "1", features = ["derive"] }
serde_json = "1"
sha2 = "0.10"
