[package]
name = "quiz_arena"
version = "0.1.0"
edition = "2021"
publish = false

[dependencies]
anyhow = "=1.0.104"
async-trait = "=0.1.92"
axum = "=0.8.9"
axum-otel-metrics = "=0.14.1"
config = { version = "=0.15.27", default-features = false, features = ["toml"] }
connectrpc = { version = "=0.9.1", features = ["axum"] }
connectrpc-health = "=0.9.0"
connectrpc-reflection = "=0.9.0"
inventory = "=0.3.25"
log = "=0.4.35"
opentelemetry = "=0.32.0"
opentelemetry-appender-tracing = "=0.32.0"
opentelemetry-http = "=0.32.0"
opentelemetry-otlp = { version = "=0.32.0", features = ["grpc-tonic", "http-proto", "tls", "tls-roots"] }
opentelemetry-resource-detectors = "=0.12.0"
opentelemetry_sdk = "=0.32.1"
sea-orm = { version = "=2.0.4", default-features = false, features = ["sqlx-sqlite", "sqlx-mysql", "runtime-tokio-rustls", "macros"] }
serde = { version = "=1.0.229", features = ["derive"] }
serde_json = "=1.0.154"
tokio = { version = "=1.54.1", features = ["full"] }
tower = { version = "=0.5.3", features = ["util"] }
tracing = "=0.1.44"
tracing-opentelemetry = "=0.33.0"
tracing-subscriber = { version = "=0.3.23", features = ["env-filter"] }
uuid = "=1.29.0"
