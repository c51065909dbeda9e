[package]
name = "useproxy"
version = "0.1.0"
edition = "2021"
publish = false

[dependencies]
axum = "=0.7.9"
axum-server = { version = "=0.7.3", features = ["tls-rustls"] }
bytes = "=1.12.1"
chrono = { version = "=0.4.45", features = ["serde"] }
clap = { version = "=4.6.7", features = ["derive"] }
http-body-util = "=0.1.5"
hyper = { version = "=1.12.0", features = ["full"] }
hyper-tls = "=0.6.0"
hyper-util = { version = "=0.1.21", features = ["client-legacy", "http1", "http2", "tokio"] }
rcgen = "=0.11.3"
serde = { version = "=1.0.229", features = ["derive"] }
serde_json = "=1.0.154"
tokio = { version = "=1.54.1", features = ["full"] }
tower-http = { version = "=0.5.2", features = ["cors", "fs"] }
tracing = "=0.1.44"
tracing-subscriber = "=0.3.23"
