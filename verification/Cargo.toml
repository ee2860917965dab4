[package]
name = "udoc"
version = "0.2.0"
edition = "2021"
publish = false

[dependencies]
url = "2"
ring = "0.17"
x509-parser = "0.16"
chrono = "0.4"
tokio = { version = "1", features = ["full"] }
hyper = { version = "1", features = ["client", "http2"] }
hyper-util = { version = "0.1", features = ["tokio"] }
http-body-util = "0.1"
bytes = "1"
rustls = { version = "0.23", default-features = false, features = ["ring", "logging", "std", "tls12"] }
tokio-rustls = { version = "0.26", default-features = false, features = ["ring", "logging", "tls12"] }
webpki-roots = "0.26"
hickory-resolver = "0.24"
