[package]
name = "sandbag"
version = "0.1.0"
edition = "2021"
publish = false

[dependencies]
regex = "1"
serde = { version = "1", features = ["derive"] }
serde_json = "1"
serde_yaml = "0.9"
toml = "0.8"
anyhow = "1"
thiserror = "1"
chrono = { version = "0.4", features = ["serde"] }
clap = { version = "4", features = ["derive"] }
colored = "2"
console = "0.15"
dialoguer = "0.11"
indicatif = "0.17"
rand = "0.8"
tokio = { version = "1", features = ["full"] }
