[package]
name = "motion_core"
version = "0.1.0"
edition = "2021"
publish = false

[dependencies]
anyhow = "*"
base64 = "*"
clap = { version = "*", features = ["derive"] }
dialoguer = "*"
dirs = "*"
indicatif = "*"
owo-colors = "*"
pathdiff = "*"
reqwest = { version = "*", default-features = false, features = ["blocking", "rustls-tls"] }
semver = "*"
serde = { version = "*", features = ["derive"] }
serde_json = "*"
thiserror = "*"
tracing = "*"
tracing-subscriber = { version = "*", features = ["env-filter"] }
