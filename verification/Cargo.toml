[package]
name = "educoin"
version = "0.1.0"
edition = "2021"
publish = false

[dependencies]
candid = "*"
num-bigint = "0.4"
ic-cdk = "*"
ic-cdk-macros = "*"
lazy_static = "*"
serde = { version = "*", features = ["derive"] }
