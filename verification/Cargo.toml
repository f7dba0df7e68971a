[package]
name = "tunproxy"
version = "0.1.0"
edition = "2021"
publish = false

[dependencies]
smoltcp = "0.11"
log = "0.4"
wintun = "*"
tokio = { version = "1", features = ["rt-multi-thread", "net", "time", "sync", "macros"] }
rustls = { version = "0.23", default-features = false, features = ["ring", "std", "tls12", "logging"] }
rustls-pki-types = "1"
tokio-rustls = { version = "0.26", default-features = false, features = ["ring", "tls12", "logging"] }
webpki-roots = "0.26"
