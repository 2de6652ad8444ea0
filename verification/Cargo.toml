[package]
name = "wit2wadm"
version = "0.1.0"
edition = "2021"
publish = false

[dependencies]
anyhow = "=1.0.104"
clap = { version = "=4.6.7", features = ["derive"] }
serde = { version = "=1.0.229", features = ["derive"] }
serde_yaml = "=0.9.34"
wadm-types = "=0.1.0"
wit-component = "=0.261.0"
wit-parser = "=0.261.0"
