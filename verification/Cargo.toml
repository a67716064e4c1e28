[package]
name = "nginx_logs"
version = "0.1.0"
edition = "2021"
publish = false

[dependencies]
axum = "0.8"
lazy_static = "1"
prometheus = "0.14"
serde = { version = "1", features = ["derive"] }
tokio = { version = "1", features = ["full"] }
