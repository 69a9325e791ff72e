[package]
name = "hpc"
version = "0.1.0"
edition = "2021"
publish = false

[dependencies]
rand = "0.9"
sysinfo = "*"
uuid = { version = "1", features = ["v4"] }
serde = { version = "1", features = ["derive"] }
serde_json = "1"
toml = "*"
humantime-serde = "*"
tokio = { version = "1", features = ["full"] }
hdrhistogram = "7"
redb = "*"
axum = "0.8"
reqwest = { version = "*", default-features = false, features = ["json"] }
prometheus = { version = "*", default-features = false }
clap = { version = "4", features = ["derive", "env"] }
comfy-table = "*"
anyhow = "1"
thiserror = "*"
tracing = "0.1"
tracing-subscriber = { version = "0.3", features = ["env-filter", "json"] }
