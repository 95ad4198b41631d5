[package]
name = "otel_collector"
version = "0.1.0"
edition = "2021"
publish = false

[dependencies]
petgraph = "=0.6.5"
semver = "=1.0.28"
regex = "=1.13.1"
serde = { version = "=1.0.229", features = ["derive"] }
serde_yaml = "=0.9.34"
bson = "=2.15.0"
mongodb = "=3.9.1"
tokio = { version = "=1.54.1", features = ["full"] }
tokio-stream = { version = "=0.1.19", features = ["sync"] }
tokio-util = { version = "=0.7.20", features = ["time"] }
futures = "=0.3.34"
async-trait = "=0.1.92"
color-eyre = "=0.6.5"
thiserror = "=1.0.69"
tracing = "=0.1.44"
tracing-subscriber = { version = "=0.3.23", features = ["env-filter", "json"] }
tracing-opentelemetry = "=0.25.0"
opentelemetry = "=0.24.0"
opentelemetry_sdk = "=0.24.1"
opentelemetry-otlp = "=0.17.0"
opentelemetry-proto = "=0.7.0"
tonic = { version = "=0.12.3", features = ["gzip"] }
clap = { version = "=4.6.7", features = ["derive", "env"] }
atty = "=0.2.14"
duration-string = { version = "=0.4.0", features = ["serde"] }
strum = { version = "=0.26.3", features = ["derive"] }
lazy_static = "=1.5.1"
