[package]
name = "chess_ai_rust"
version = "0.1.0"
edition = "2021"
publish = false

[dependencies]
shakmaty = { version = "0.27", features = ["variant"] }
shakmaty-syzygy = "0.25"
anyhow = "1"
clap = { version = "4", features = ["derive"] }
serde = { version = "1", features = ["derive"] }
serde_json = "1"
ndarray = { version = "0.15", features = ["serde"] }
linfa = "0.7"
linfa-elasticnet = "0.7"
rand = "0.8"
tokio = { version = "1", features = ["rt-multi-thread", "macros", "net"] }
axum = "0.7"
tower-http = { version = "0.5", features = ["cors", "fs"] }
tera = { version = "1", default-features = false }
reqwest = { version = "0.11", default-features = false, features = ["blocking"] }
scraper = "0.18"
wasm-bindgen = "0.2"
