[package]
name = "sapio"
version = "0.1.0"
edition = "2021"
publish = false

[dependencies]
bitcoin = "*"
tokio = { version = "*", features = ["rt-multi-thread"] }
bitcoincore-rpc-async = "*"
