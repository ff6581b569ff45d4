[package]
name = "zenith"
version = "0.1.0"
edition = "2021"
publish = false

[dependencies]
crossbeam = "*"
wasmtime = "=44.0.3"
wasmtime-wasi = "=44.0.3"
uuid = { version = "*", features = ["v4"] }
core_affinity = "*"
arrow = { version = "*", features = ["ffi"] }
tokio = { version = "*", features = ["full"] }
axum = "*"
clap = { version = "*", features = ["derive"] }
serde = { version = "*", features = ["derive"] }
serde_json = "*"
serde_yaml = "*"
toml = "*"
thiserror = "*"
anyhow = "*"
chrono = "*"
tracing = "*"
tracing-subscriber = "*"
libc = "*"
