[package]
name = "calc_engine"
version = "0.1.0"
edition = "2021"
publish = false

[dependencies]
axum = "*"
serde = { version = "*", features = ["derive"] }
serde-wasm-bindgen = "*"
tokio = { version = "*", features = ["full"] }
tower-http = { version = "*", features = ["fs"] }
tracing-subscriber = "*"
wasm-bindgen = "*"
