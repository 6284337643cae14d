[package]
name = "tokio_electrum"
version = "0.1.0"
edition = "2021"
publish = false

[dependencies]
bdk_core = "=0.6.4"
bitcoin = "=0.32.102"
electrum_streaming_client = "=0.4.0"
futures = "=0.3.34"
futures-util = "=0.3.34"
# Only the app needs this one, to read what a server says of its features.
serde_json = "=1.0.154"
tokio = { version = "=1.54.1", features = ["full"] }
tokio-rustls = { version = "=0.26.6", default-features = false, features = ["ring", "tls12"] }
tokio-socks = "=0.5.3"
tokio-stream = { version = "=0.1.19", features = ["sync"] }
tracing = "=0.1.44"
webpki-roots = "=1.0.10"
