[package]
name = "hugging_datasets"
version = "0.1.0"
edition = "2021"
publish = false

[dependencies]
uuid = { version = "=1.27.0", features = ["v4"] }
chrono = "=0.4.45"
serde = { version = "=1.0.229", features = ["derive"] }
serde_json = "=1.0.151"
clap = "=4.6.7"
dialoguer = "=0.12.0"
indicatif = "=0.18.6"
arrow = "*"
parquet = { version = "*", default-features = false, features = ["arrow"] }
