[package]
name = "veloce"
version = "0.1.0"
edition = "2021"
publish = false

[dependencies]
anyhow = "1"
bincode = "1.3"
chrono = "0.4"
clap = { version = "4", features = ["derive", "env"] }
core_affinity = "0.8"
flate2 = "1"
futures = "0.3"
gethostname = "*"
libc = "0.2"
nvml-wrapper = "*"
opentelemetry = "0.30"
opentelemetry-otlp = { version = "0.30", features = ["grpc-tonic"] }
opentelemetry_sdk = { version = "0.30", features = ["rt-tokio"] }
portable-pty = "0.8"
pulldown-cmark = "0.12"
rustls = "0.23"
serde = { version = "1", features = ["derive"] }
serde_json = "1"
shell-words = "1"
sysinfo = "0.29"
tar = "0.4"
tokio = { version = "1", features = ["full"] }
tokio-util = { version = "0.7", features = ["codec"] }
toml = "0.8"
tracing = "0.1"
tracing-appender = "0.2"
tracing-opentelemetry = "0.31"
tracing-subscriber = { version = "0.3", features = ["env-filter"] }
uuid = { version = "1", features = ["v4"] }
