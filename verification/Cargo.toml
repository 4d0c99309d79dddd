[package]
name = "rustnfssvc"
version = "0.1.0"
edition = "2021"
publish = false

[dependencies]
anyhow = "1"
hmac = "0.12"
sha2 = "0.10"
ipnet = "2"
serde = { version = "1", features = ["derive"] }
toml = "0.8"
tokio = { version = "1", features = ["full"] }
tracing = "0.1"
tracing-subscriber = { version = "0.3", features = ["env-filter"] }
tracing-appender = "0.2"
rustls = { version = "0.23", default-features = false, features = ["ring", "std", "tls12", "logging"] }
rustls-pemfile = "2"
tokio-rustls = { version = "0.26", default-features = false, features = ["ring", "tls12", "logging"] }
windows-service = "0.7"
