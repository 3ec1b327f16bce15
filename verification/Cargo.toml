[package]
name = "wallet_rust"
version = "0.1.0"
edition = "2021"
publish = false

[dependencies]
candid = { version = "=0.10.37", features = ["value"] }
hex = "=0.4.3"
ic-cdk = "=0.13.6"
ic-cdk-macros = "=0.13.2"
serde = "=1.0.229"
sha2 = "=0.10.9"
