[package]
name = "rust_scratch"
version = "0.1.0"
edition = "2021"
publish = false

[dependencies]
anyhow = "1"
thiserror = "2"
serde = { version = "1", features = ["derive"] }
serde_json = "1"
rand = "*"
crossbeam-channel = "0.5"
tokio = { version = "1", features = ["rt-multi-thread"] }
