[package]
name = "index_executor"
version = "0.1.0"
edition = "2021"
publish = false

[dependencies]
num-traits = "0.2"
rust_decimal = "1"
reblessive = { version = "0.4", features = ["tree"] }
revision = "0.11"
tokio = { version = "1", features = ["sync"] }
