[package]
name = "pinnacle"
version = "0.1.0"
edition = "2021"
publish = false

[dependencies]
anyhow = "1"
indexmap = "2"
smithay = { version = "*", default-features = false }
tokio = { version = "1", default-features = false, features = ["sync"] }
tracing = "0.1"
