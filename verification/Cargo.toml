[package]
name = "stt_server"
version = "0.1.0"
edition = "2021"
publish = false

[dependencies]
serde_json = "=1.0.154"
axum = { version = "=0.7.9", features = ["ws"] }
futures = "=0.3.34"
tokio = { version = "=1.54.1", features = ["full"] }
tower-http = { version = "=0.5.2", features = ["cors", "fs"] }
tracing = "=0.1.44"
tracing-subscriber = { version = "=0.3.23", features = ["env-filter"] }
uuid = { version = "=1.29.0", features = ["v4"] }
ort = { version = "=2.0.0-rc.15", default-features = false, features = ["std", "cuda", "tensorrt"] }
