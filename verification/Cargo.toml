[package]
name = "tokichan"
version = "0.1.0"
edition = "2021"
publish = false

[dependencies]
anyhow = "=1.0.104"
axum = { version = "=0.6.20", features = ["multipart"] }
axum-sessions = "=0.5.0"
base64 = "=0.23.1"
captcha-a = "=0.1.6"
chrono = "=0.4.45"
hyper = "=0.14.32"
mime-sniffer = "=0.1.3"
pbkdf2 = { version = "=0.12.2", features = ["simple"] }
rand = "=0.8.8"
ripemd = "=0.2.0"
serde = { version = "=1.0.229", features = ["derive"] }
tokio = { version = "=1.53.2", features = ["full"] }
toml = "=1.1.6"
ttf-parser = "=0.15.2"
