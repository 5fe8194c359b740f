[package]
name = "protocol_util"
version = "0.1.0"
edition = "2021"
publish = false

[dependencies]
convert_case = "0.6"
futures = "0.3"
serde = { version = "1", features = ["derive"] }
serde_json = "1"
pin-project = "1"
async-mutex = "1"
syn = { version = "2", features = ["full"] }
quote = "1"
proc-macro2 = "1"
itertools = "0.10"
axum = { version = "0.6", features = ["ws"] }
tokio = { version = "1", features = ["full"] }
tokio-stream = { version = "0.1", features = ["sync"] }
tower-http = { version = "0.4", features = ["cors", "catch-panic"] }
