[package]
name = "autodocs"
version = "0.1.0"
edition = "2021"
publish = false

[dependencies]
clap = "4"
openai_api_rust = "*"
serde = { version = "1", features = ["derive"] }
serde_json = "1"
serde_yaml = "0.9"
sha2 = "0.10"
