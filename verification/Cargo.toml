[package]
name = "rohan"
version = "0.1.0"
edition = "2021"
publish = false

[dependencies]
anyhow = "*"
clap = { version = "*", features = ["derive"] }
dotenvy = "*"
openapiv3 = "*"
serde = { version = "*", features = ["derive"] }
serde_json = "*"
