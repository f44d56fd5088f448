[package]
name = "rblog"
version = "0.1.0"
edition = "2021"
publish = false

[dependencies]
slug = "=0.1.6"
comrak = { version = "=0.59.0", default-features = false }
pulldown-cmark = { version = "=0.13.6", default-features = false, features = ["html"] }
chrono = { version = "=0.4.45", features = ["serde"] }
serde = { version = "=1.0.229", features = ["derive"] }
serde_yaml = "=0.9.34"
anyhow = "=1.0.104"
argh = "=0.1.19"
schematic = { version = "=0.20.12", features = ["yaml"] }
salvo = { version = "=1.1.0", features = ["affix-state", "logging", "anyhow"] }
tokio = { version = "=1.54.1", features = ["full"] }
notify = "=8.2.1"
arc-swap = "=1.9.3"
tracing = "=0.1.44"
tracing-subscriber = "=0.3.23"
dotenv = "=0.15.0"
