[package]
name = "orchestrator_loop_for_ai"
version = "0.1.0"
edition = "2021"
publish = false

[dependencies]
anyhow = "=1.0.104"
chrono = "=0.4.45"
clap = { version = "=4.6.7", features = ["derive", "env"] }
colored = "=2.2.0"
dirs = "=5.0.1"
fs2 = "=0.4.3"
octocrab = "=0.41.2"
regex = "=1.13.1"
serde = { version = "=1.0.229", features = ["derive"] }
serde_yaml = "=0.9.34"
tokio = { version = "=1.54.1", features = ["full"] }
