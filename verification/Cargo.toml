[package]
name = "drift"
version = "0.1.0"
edition = "2021"
publish = false

[dependencies]
anyhow = "1"
clap = { version = "4", features = ["derive"] }
glam = "0.29"
rand = "0.8"
rand_chacha = { version = "0.3", features = ["serde1"] }
rhai = { version = "1", features = ["sync"] }
ron = "0.8"
serde = { version = "1", features = ["derive"] }
serde_json = "1"
thiserror = "1"
toml = "0.8"
tracing = "0.1"
tracing-subscriber = { version = "0.3", features = ["env-filter"] }
