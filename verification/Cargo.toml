[package]
name = "dmvop"
version = "0.1.0"
edition = "2021"
publish = false

[dependencies]
clap = { version = "4", features = ["derive"] }
cpal = "0.17"
pinyin = "*"
serde = { version = "1", features = ["derive"] }
tokio = { version = "1", features = ["full"] }
toml = "*"
tracing-subscriber = { version = "0.3", features = ["env-filter"] }
