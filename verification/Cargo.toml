[package]
name = "phoneword"
version = "0.1.0"
edition = "2021"
publish = false

[dependencies]
encoding_rs = "*"
axum = "*"
tokio = { version = "*", features = ["rt", "net", "macros"] }
tower-http = { version = "*", features = ["cors"] }
tracing = "*"
tracing-subscriber = "*"
