[package]
name = "all_llama_proxy"
version = "0.1.0"
edition = "2021"
publish = false

[dependencies]
axum = "0.8"
bincode = { version = "2", features = ["serde"] }
chrono = "0.4"
clap = { version = "4", features = ["derive"] }
crossterm = "0.28"
futures-util = "0.3"
ratatui = "0.29"
reqwest = { version = "0.12", default-features = false, features = ["json", "stream"] }
serde = { version = "1", features = ["derive"] }
serde_json = "1"
serde_yaml = "0.9"
sha2 = "0.10"
subtle = "2"
tokio = { version = "1", features = ["full"] }
tokio-stream = "0.1"
tracing = "0.1"
tracing-subscriber = { version = "0.3", features = ["env-filter"] }
