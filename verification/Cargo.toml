[package]
name = "distore"
version = "0.1.0"
edition = "2021"
publish = false

[dependencies]
anyhow = "*"
clap = { version = "*", features = ["derive"] }
dirs = "*"
futures = "*"
reqwest = { version = "*", default-features = false, features = ["json", "rustls-tls"] }
rust-ini = "*"
semver = "*"
serde_json = "*"
serenity = { version = "*", default-features = false, features = ["builder", "http", "model", "rustls_backend"] }
tokio = { version = "*", features = ["rt-multi-thread", "macros"] }
