[package]
name = "noctiforge_worker"
version = "0.1.0"
edition = "2021"
publish = false

[dependencies]
url = "2"
libcontainer = { version = "*", default-features = false }
tokio = { version = "1", features = ["full"] }
tokio-util = "0.7"
tonic = "0.12"
prost = "0.13"
clap = { version = "4", features = ["derive"] }
serde = { version = "1", features = ["derive"] }
serde_json = "1"
toml = "0.8"
tokio-tar = "0.3"
anyhow = "1"
tracing = "0.1"
