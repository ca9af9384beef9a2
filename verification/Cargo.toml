[package]
name = "firewall_metrics"
version = "0.1.0"
edition = "2021"
publish = false

[dependencies]
anyhow = "1"
prometheus = { version = "0.13", default-features = false }
regex = "1"
tokio = { version = "1", features = ["macros", "process", "rt"] }
tracing = "0.1"
