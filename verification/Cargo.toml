[package]
name = "liqi_helper"
version = "0.1.0"
edition = "2021"
publish = false

[dependencies]
bytes = "*"
clap = { version = "*", features = ["derive"] }
hudsucker = { version = "*", features = ["rcgen-ca", "rustls-client"] }
once_cell = "*"
reqwest = { version = "*", default-features = false, features = ["rustls-tls"] }
tokio = { version = "*", features = ["full"] }
tracing = "*"
tracing-subscriber = "*"
