[package]
name = "tari_dan_models"
version = "0.1.0"
edition = "2021"
publish = false

[dependencies]
indexmap = "2"
time = "0.3"
blake2 = "0.10"
serde = { version = "1", features = ["derive"] }
serde_json = "1"
anyhow = "1"
tokio = { version = "1", features = ["sync", "macros", "rt"] }
log = "0.4"
