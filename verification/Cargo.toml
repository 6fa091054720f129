[package]
name = "mcplex"
version = "0.3.0"
edition = "2021"
publish = false

[dependencies]
serde_json = "1"
glob = "0.3"
uuid = { version = "1", features = ["v4"] }
anyhow = "1"
axum = "0.8"
clap = { version = "4", features = ["derive"] }
notify = "8"
reqwest = { version = "0.12", default-features = false, features = ["json"] }
serde = { version = "1", features = ["derive"] }
tokio = { version = "1", features = ["full"] }
toml = "0.8"
tower-http = { version = "0.6", features = ["cors"] }
tracing = "0.1"
tracing-subscriber = { version = "0.3", features = ["env-filter"] }
