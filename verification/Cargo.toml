[package]
name = "mlpnet"
version = "0.1.0"
edition = "2021"
publish = false

[dependencies]
rustc_apfloat = "*"
rand = "*"
serde = { version = "*", features = ["derive"] }
serde_json = "*"
