[package]
name = "toasty_driver_surreal"
version = "0.1.0"
edition = "2021"
publish = false

[dependencies]
rust_decimal = "=1.43.0"
serde_json = "=1.0.154"
uuid = "=1.29.0"
toasty-core = "=0.10.0"
tokio = { version = "=1.54.1", features = ["sync"] }
async-trait = "=0.1.92"
tracing = "=0.1.44"
