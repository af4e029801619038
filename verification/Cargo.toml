[package]
name = "csv_aggregator"
version = "0.1.0"
edition = "2021"
publish = false

[dependencies]
chrono = { version = "=0.4.45", default-features = false, features = ["std", "serde"] }
clap = "=2.34.0"
csv = "=1.4.0"
failure = "=0.1.8"
glob = "=0.2.11"
serde = { version = "=1.0.229", features = ["derive"] }
serde_yaml = "=0.8.26"

[dev-dependencies]
float-cmp = "=0.3.0"
