[package]
name = "traffic_meter"
version = "0.1.0"
edition = "2021"
publish = false

[dependencies]
tokio = { version = "1", features = ["rt-multi-thread", "macros", "time", "fs"] }
sqlx = { version = "0.8", features = ["runtime-tokio", "sqlite"] }
serde_json = "1"
tracing = "0.1"
