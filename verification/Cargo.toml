[package]
name = "fortuna"
version = "0.1.0"
edition = "2021"
publish = false

[dependencies]
anyhow = "1"
axum = "0.6"
base64 = "0.21"
clap = { version = "4", features = ["derive"] }
hex = "0.4"
reqwest = { version = "0.11", default-features = false, features = ["json"] }
serde = { version = "1", features = ["derive"] }
serde_yaml = "0.9"
sha3 = "0.10"
tokio = { version = "1", features = ["macros", "rt-multi-thread", "sync"] }
