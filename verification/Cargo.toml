[package]
name = "text_generation_router"
version = "0.1.0"
edition = "2021"
publish = false

[dependencies]
tokio = { version = "*", features = ["sync", "rt", "macros", "signal"] }
axum = "*"
futures = "*"
async-stream = "*"
tokio-stream = "*"
serde = { version = "*", features = ["derive"] }
