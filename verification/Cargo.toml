[package]
name = "gateway_proxy"
version = "0.1.0"
edition = "2021"
publish = false

[dependencies]
flate2 = "1"
futures-util = "0.3"
hyper = { version = "0.14", features = ["server", "http1", "tcp"] }
metrics-exporter-prometheus = { version = "0.11", default-features = false }
serde = { version = "1", features = ["derive"] }
serde_json = "1"
tokio = { version = "1", features = ["rt-multi-thread", "macros", "sync", "net", "io-util"] }
tokio-tungstenite = "0.18"
tracing = "0.1"
twilight-cache-inmemory = "0.14"
twilight-gateway = { version = "0.14", default-features = false, features = ["rustls-webpki-roots"] }
twilight-model = "0.14"
