[package]
name = "secret_lookup"
version = "0.1.0"
edition = "2021"
publish = false

[dependencies]
clap = { version = "*", features = ["derive"] }
eyre = "*"
secret-service = { version = "*", features = ["rt-tokio-crypto-rust"] }
tokio = { version = "*", features = ["macros", "rt-multi-thread"] }
