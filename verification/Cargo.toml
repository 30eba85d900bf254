[package]
name = "mars_mesh"
version = "0.1.0"
edition = "2021"
publish = false

[dependencies]
blake3 = "1"
bs58 = "0.5"
ed25519-dalek = { version = "2", features = ["rand_core"] }
hex = "0.4"
rand = "0.8"
uuid = { version = "1", features = ["v4"] }
ciborium = "0.2"
serde = { version = "1", features = ["derive"] }
serde_json = "1"
thiserror = "2"
anyhow = "1"
tokio = { version = "1", features = ["full"] }
quinn = "0.11"
rustls = { version = "0.23", default-features = false, features = ["ring", "std"] }
rcgen = "0.13"
clap = { version = "4", features = ["derive"] }
tracing = "0.1"
tracing-subscriber = { version = "0.3", features = ["env-filter"] }
axum = "0.7"
tower-http = { version = "0.6", features = ["cors"] }
prometheus-client = "0.22"
moka = { version = "0.12", features = ["sync"] }
rusqlite = { version = "0.32", features = ["bundled"] }
toml = "0.8"
redb = "2"
