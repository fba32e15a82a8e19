[package]
name = "zhiyuan"
version = "0.1.0"
edition = "2021"
publish = false

[dependencies]
uuid = { version = "1", features = ["v4"] }
serde = { version = "1", features = ["derive"] }
serde_json = "1"
regex-lite = "*"
dom_smoothie = "*"
chrono = "0.4"
tokio = { version = "1", features = ["full"] }
reqwest = { version = "*", default-features = false, features = ["json"] }
async-trait = "*"
futures = "*"
clap = { version = "4", features = ["derive"] }
anyhow = "1"
dotenvy = "*"
toml = "*"
tracing = "*"
tracing-subscriber = { version = "*", features = ["env-filter"] }
thiserror = "*"
base64 = "*"
backoff = "*"
instant-distance = "*"
bincode = "1"
pdf_oxide = { version = "*", default-features = false }
rocksdb = { version = "*", default-features = false }
tuirealm = "*"
