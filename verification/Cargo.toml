[package]
name = "server3"
version = "0.1.0"
edition = "2021"
publish = false

[dependencies]
lru = "*"
path-tree = "0.8"
rlimit = "*"
jiff = { version = "0.2", features = ["serde"] }
bytesize = { version = "*", features = ["serde"] }
url = { version = "2", features = ["serde"] }
uuid = { version = "1", features = ["v4"] }
tokio = { version = "1", features = ["full"] }
axum = "*"
reqwest = { version = "*", default-features = false, features = ["rustls-tls", "stream"] }
serde = { version = "1", features = ["derive"] }
figment = { version = "*", features = ["env"] }
clap = { version = "4", features = ["derive"] }
serde_styx = "*"
tracing = "*"
tracing-subscriber = { version = "*", features = ["env-filter"] }
metrics = "*"
metrics-exporter-prometheus = { version = "*", default-features = false }
tempfile = "*"
tokio-util = { version = "*", features = ["io"] }
tokio-stream = "*"
futures = "*"
async-trait = "*"
thiserror = "*"
anyhow = "*"
tower-http = { version = "*", features = ["trace"] }
humantime-serde = "*"
aws-config = "*"
aws-sdk-s3 = "*"
