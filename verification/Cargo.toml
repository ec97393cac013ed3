[package]
name = "cache_churn"
version = "0.1.0"
edition = "2021"
publish = false

[dependencies]
regex = "1"
chrono = "0.4"
csv = "1"
clap = { version = "4", features = ["derive"] }
