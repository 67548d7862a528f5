[package]
name = "spendability-pir"
version = "0.1.0"
edition = "2021"
publish = false

[dependencies]
arc-swap = "1"
axum = "0.8"
clap = { version = "4", features = ["derive"] }
incrementalmerkletree = "=0.8.2"
orchard = "=0.15.5"
prost = "0.13"
rayon = "1"
reqwest = { version = "0.12", default-features = false }
serde = { version = "1", features = ["derive"] }
serde_json = "1"
thiserror = "2"
tokio = { version = "1", features = ["full"] }
tokio-util = "0.7"
tonic = "0.13"
tracing = "0.1"
tracing-subscriber = { version = "0.3", features = ["env-filter"] }
valar-spiral-rs = "=0.5.2"
valar-ypir = "=0.2.0"
