[package]
name = "glote"
version = "0.1.0"
edition = "2021"
publish = false

[dependencies]
mime_guess = "*"
serde = { version = "*", features = ["derive"] }
serde_json = "*"
tokio = { version = "*", features = ["full"] }
