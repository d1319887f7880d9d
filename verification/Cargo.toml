[package]
name = "urshort"
version = "0.1.0"
edition = "2021"
publish = false

[dependencies]
axum = "0.6"
dotenv = "0.15"
regex = "1"
substring = "1"
tokio = { version = "1", features = ["macros", "rt-multi-thread"] }
