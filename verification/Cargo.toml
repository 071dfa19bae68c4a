[package]
name = "webcortex"
version = "0.1.0"
edition = "2021"
publish = false

[dependencies]
base64 = "=0.22.1"
bytes = "=1.12.1"
futures = "=0.3.34"
http-body-util = "=0.1.5"
hyper = { version = "=1.12.0", features = ["http1", "http2", "server"] }
hyper-util = { version = "=0.1.21", features = ["tokio", "server", "server-auto", "http1", "http2"] }
jsonwebtoken = "=9.3.1"
matchit = "=0.8.6"
mime_guess = "=2.0.5"
minijinja = { version = "=2.24.0", features = ["loader"] }
pyo3 = { version = "=0.30.1", features = ["abi3-py39", "extension-module"] }
reqwest = { version = "=0.12.28", default-features = false, features = ["json", "rustls-tls"] }
serde = { version = "=1.0.229", features = ["derive"] }
serde_json = "=1.0.154"
sha2 = "=0.10.9"
sqlx = { version = "=0.9.0", default-features = false, features = ["sqlite", "runtime-tokio"] }
subtle = "=2.6.1"
tokio = { version = "=1.54.1", features = ["full"] }
tracing = "=0.1.44"
tracing-subscriber = { version = "=0.3.23", features = ["env-filter", "json"] }
uuid = { version = "=1.29.0", features = ["v4"] }
