[package]
name = "solin_blog"
version = "0.1.0"
edition = "2021"
publish = false

[dependencies]
getrandom = "0.2"
pulldown-cmark = "0.12"
chrono = "0.4"
serde = { version = "1", features = ["derive"] }
serde_json = "1"
axum = "0.8"
tokio = { version = "1", features = ["rt-multi-thread", "net", "macros"] }
mime_guess = "2"
dotenvy = "0.15"
anyhow = "1"
