[package]
name = "corvus"
version = "0.1.0"
edition = "2021"
publish = false

[dependencies]
anyhow = "1"
axum = "0.7"
config = { version = "0.14", default-features = false, features = ["toml"] }
dashmap = "5"
dotenv = "0.15"
ethers = { version = "2", default-features = false, features = ["ipc"] }
futures = "0.3"
hex = "0.4"
lazy_static = "1"
once_cell = "1"
prometheus = { version = "0.13", default-features = false }
reqwest = { version = "0.11", default-features = false, features = ["json"] }
serde = { version = "1", features = ["derive"] }
serde_json = "1"
tokio = { version = "1", features = ["full"] }
tracing = "0.1"
tracing-subscriber = { version = "0.3", features = ["env-filter"] }
zeroize = "1"
