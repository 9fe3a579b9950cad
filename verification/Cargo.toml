[package]
name = "license_report"
version = "0.1.0"
edition = "2021"
publish = false

[dependencies]
clap = { version = "=4.6.7", features = ["derive"] }
colored = "=3.1.1"
license-fetcher = { version = "=0.10.1", features = ["build"] }

[dev-dependencies]
serde_json = "=1.0.151"
serde_yml = "=0.0.13"
