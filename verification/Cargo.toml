[package]
name = "bugpot"
version = "0.1.0"
edition = "2021"
publish = false

[dependencies]
hex = "=0.4.3"
hmac = "=0.13.0"
humantime = "=2.4.0"
ipnet = "=2.12.2"
sha2 = "=0.11.1"
subtle = "=2.6.1"
zeroize = "=1.9.1"
anyhow = "=1.0.104"
async-trait = "=0.1.92"
axum = "=0.8.9"
clap = { version = "=4.6.7", features = ["derive", "env"] }
fs-mistrust = { version = "=0.16.0", default-features = false }
hickory-proto = "=0.26.3"
hickory-resolver = "=0.26.3"
hickory-server = "=0.26.3"
http-body-util = "=0.1.5"
hyper = { version = "=1.12.0", features = ["client", "http1", "http2", "server"] }
hyper-util = { version = "=0.1.21", features = ["client-legacy", "http1", "http2", "server", "server-auto", "service", "tokio"] }
metrics = "=0.24.6"
metrics-exporter-prometheus = { version = "=0.18.3", default-features = false }
reqwest = { version = "=0.12.28", default-features = false, features = ["json"] }
serde = { version = "=1.0.229", features = ["derive"] }
serde_json = "=1.0.154"
tokio = { version = "=1.54.1", features = ["full"] }
tokio-metrics = "=0.5.2"
toml = "=1.1.8"
tower = { version = "=0.5.3", features = ["buffer", "limit", "util"] }
tower-http = { version = "=0.6.11", features = ["limit", "timeout"] }
tracing = "=0.1.44"
tracing-subscriber = { version = "=0.3.23", features = ["env-filter", "json"] }
