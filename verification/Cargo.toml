[package]
name = "html_search"
version = "0.1.0"
edition = "2021"
publish = false

[dependencies]
once_cell = "1"
serde_json = "1"
axum = "0.7"
tokio = { version = "1", features = ["macros", "rt-multi-thread", "net"] }
askama = "0.12"
elasticsearch = "=8.5.0-alpha.1"
