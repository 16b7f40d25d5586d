[package]
name = "user_auth"
version = "0.1.0"
edition = "2021"
publish = false

[dependencies]
pbkdf2 = { version = "0.12", default-features = false, features = ["hmac"] }
sha2 = "0.10"
getrandom = "0.2"
axum = "0.7"
axum-extra = { version = "0.9", features = ["cookie"] }
serde = { version = "1", features = ["derive"] }
anyhow = "1"
