[package]
name = "portman_core"
version = "0.1.0"
edition = "2021"
publish = false

[dependencies]
rust_decimal = "*"
anyhow = "*"
dotenv = "*"
tokio = { version = "*", features = ["macros", "rt-multi-thread"] }
tonic = "*"
async-nats = "*"
questdb-rs = "*"
