[package]
name = "nu_msgpack"
version = "0.1.0"
edition = "2021"
publish = false

[dependencies]
brotli = { version = "=9.0.0", features = ["portable-float"] }
chrono = "=0.4.45"
nu-plugin = "0.80"
nu-protocol = { version = "=0.80.0", default-features = false }
rmpv = "=1.3.1"
