[package]
name = "snapclient"
version = "0.1.0"
edition = "2021"
publish = false

[dependencies]
circular-buffer = "*"
claxon = "*"
opus = "*"
clap = { version = "*", features = ["derive"] }
anyhow = "*"
