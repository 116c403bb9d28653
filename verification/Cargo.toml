[package]
name = "codex_prompts"
version = "0.1.0"
edition = "2021"
publish = false

[dependencies]
serde = { version = "1", features = ["derive"] }
tokio = { version = "1", features = ["fs"] }
ts-rs = "*"
