[package]
name = "http_streams_core"
version = "0.1.0"
edition = "2021"
publish = false

[dependencies]
arrow = { version = "*", default-features = false, features = ["ipc"] }
bytes = "*"
csv = "*"
csv-core = "*"
futures = "*"
prost = { version = "*", default-features = false, features = ["std"] }
serde = { version = "*", features = ["derive"] }
serde_json = "*"
tokio-util = { version = "*", features = ["codec", "io"] }
tracing = "*"
