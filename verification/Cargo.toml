[package]
name = "credential_store"
version = "0.1.0"
edition = "2021"
publish = false

[dependencies]
anyhow = "*"
clap = { version = "*", features = ["derive"] }
clap_complete = "*"
miette = "*"
tokio = { version = "*", features = ["fs", "macros", "rt-multi-thread"] }
