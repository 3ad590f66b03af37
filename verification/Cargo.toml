[package]
name = "yxorp"
version = "0.1.0"
edition = "2021"
publish = false

[dependencies]
actix = "=0.13.5"
arc-swap = "=1.9.3"
aya = "=0.13.1"
bytes = "=1.12.1"
clap = { version = "=4.6.7", default-features = false, features = ["std", "derive", "help", "usage", "error-context"] }
futures-util = "=0.3.34"
http = "=1.5.0"
http-body-util = "=0.1.5"
httparse = "=1.10.1"
hyper = { version = "=1.12.0", features = ["client", "server", "http1", "http2"] }
hyper-util = { version = "=0.1.21", features = ["client", "client-legacy", "server", "server-auto", "tokio", "http1", "http2"] }
io-uring = "=0.6.4"
libc = "=0.2.191"
memchr = "=2.8.3"
metrics = "=0.24.6"
metrics-exporter-prometheus = { version = "=0.18.3", default-features = false }
quiche = "*"
rustls = "=0.23.46"
rustls-pki-types = "=1.15.1"
serde = { version = "=1.0.229", features = ["derive"] }
serde_json = "=1.0.154"
subtle = "=2.6.1"
thiserror = "=2.0.21"
tokio = { version = "=1.54.1", features = ["rt", "net", "io-util", "time", "sync", "macros", "signal"] }
tokio-quiche = { version = "*", default-features = false }
tokio-rustls = "=0.26.6"
tokio-uring = "=0.5.0"
toml = "=0.8.23"
tracing = "=0.1.44"
tracing-subscriber = { version = "=0.3.23", default-features = false, features = ["std", "fmt", "env-filter", "json"] }
