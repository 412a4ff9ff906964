[package]
name = "twinstar"
version = "0.1.0"
edition = "2021"
publish = false

[dependencies]
anyhow = "=1.0.104"
futures-core = "=0.3.34"
lazy_static = "=1.5.1"
log = "=0.4.34"
mime = "=0.3.17"
mime_guess = "=2.0.5"
percent-encoding = "=2.3.2"
rustls = { version = "=0.19.1", features = ["dangerous_configuration"] }
tokio = { version = "=1.53.2", features = ["full"] }
tokio-rustls = { version = "=0.22.0", features = ["dangerous_configuration"] }
uriparse = "=0.6.4"
webpki = "=0.21.4"
