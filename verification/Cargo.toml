[package]
name = "sitegen"
version = "0.1.0"
edition = "2021"
publish = false

[dependencies]
pulldown-cmark = "*"
anyhow = "*"
axum = "*"
hotwatch = "*"
tokio = { version = "*", features = ["full"] }
tower-http = { version = "*", features = ["fs"] }
