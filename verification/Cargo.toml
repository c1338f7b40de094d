[package]
name = "storage_deal"
version = "0.1.0"
edition = "2021"
publish = false

[dependencies]
anyhow = "1"
clap = { version = "3", features = ["derive"] }
env_logger = "0.9"
reqwest = "0.11"
serde = { version = "1", features = ["derive"] }
sscanf = "0.3"
tempfile = "3"
tokio = { version = "1", features = ["full"] }
warp = "0.3"
