[package]
name = "miniredis"
version = "0.1.0"
edition = "2021"
publish = false

[dependencies]
anyhow = "1"
base64 = "0.22"
clap = { version = "4", features = ["derive"] }
tokio = { version = "1", features = ["full"] }
