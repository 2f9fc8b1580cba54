[package]
name = "tetris-battle"
version = "0.2.0"
edition = "2021"
publish = false

[dependencies]
rand = "0.8"
chrono = "0.4"
axum = { version = "0.7", features = ["ws"] }
tokio = { version = "1", features = ["full"] }
tower-http = { version = "0.5", features = ["fs"] }
tracing = "0.1"
tracing-subscriber = { version = "0.3", features = ["env-filter"] }
serde = { version = "1", features = ["derive"] }
serde_json = "1"
futures = "0.3"
rusqlite = { version = "0.31", features = ["bundled"] }
wasm-bindgen = "0.2"
js-sys = "0.3"
serde-wasm-bindgen = "0.6"
