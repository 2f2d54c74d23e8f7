[package]
name = "pleme-linker"
version = "0.3.0"
edition = "2021"
publish = false

[dependencies]
anyhow = "1"
chrono = "0.4"
clap = { version = "4.5", features = ["derive"] }
flate2 = "1"
futures = "0.3"
oxc = { version = "0.99", features = ["full"] }
oxc_resolver = "6"
regex = "1"
reqwest = { version = "0.12", default-features = false, features = ["json", "rustls-tls"] }
semver = "1"
serde = { version = "1", features = ["derive"] }
serde_json = "1"
tar = "0.4"
tokio = { version = "1", features = ["rt-multi-thread", "macros"] }
walkdir = "2"
