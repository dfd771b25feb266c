[package]
name = "simon"
version = "0.1.0"
edition = "2021"
publish = false

[dependencies]
axum = "*"
prometheus = "*"
sysinfo = "*"
tokio = { version = "1", features = ["rt", "macros", "net", "sync", "time"] }
tracing = "0.1"
tracing-subscriber = "0.3"
