[package]
name = "qwasm2"
version = "0.1.0"
edition = "2021"
publish = false

[dependencies]
base64 = "0.22"
thiserror = "1"
anyhow = "1"
tracing = "0.1"
tracing-subscriber = "0.3"
tokio = { version = "1", features = ["macros", "rt-multi-thread", "net", "fs"] }
axum = "0.8"
tower-http = { version = "0.6", features = ["fs", "cors"] }
