[package]
name = "podkit"
version = "0.1.0"
edition = "2021"
publish = false

[dependencies]
uuid = { version = "1", features = ["v4"] }
serde = { version = "1", features = ["derive"] }
serde_json = "1"
serde_yaml = "0.9"
tokio = { version = "1", features = ["full"] }
notify = "*"
notify-debouncer-full = "*"
async-trait = "0.1"
humantime-serde = "1"
