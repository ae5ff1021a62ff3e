[package]
name = "fnm_ai"
version = "0.1.0"
edition = "2021"
publish = false

[dependencies]
node-semver = "2"
clap = { version = "4", features = ["derive"] }
serde = { version = "1", features = ["derive"] }
serde_json = "1"
thiserror = "2"
reqwest = { version = "0.12", default-features = false, features = ["blocking", "json", "rustls-tls"] }
