[package]
name = "rust_course"
version = "0.1.0"
edition = "2021"
publish = false

[dependencies]
heapless = "=0.8.0"
serde = { version = "=1.0.229", features = ["derive"] }
serde_json = "=1.0.154"
serde-json-core = "=0.6.0"
clap = { version = "=4.6.7", features = ["derive"] }
axum = { version = "=0.8.9", features = ["multipart"] }
tokio = { version = "=1.54.1", features = ["rt-multi-thread", "net", "macros"] }
image = { version = "=0.25.10", default-features = false, features = ["png", "jpeg"] }
uuid = { version = "=1.29.0", features = ["v4", "serde"] }
derive_more = { version = "=2.1.1", features = ["from"] }
turbojpeg = "*"
