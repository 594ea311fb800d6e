[package]
name = "hyprkill"
version = "0.1.0"
edition = "2021"
publish = false

[dependencies]
serde = "=1.0.229"
serde_json = "=1.0.154"
sysinfo = { version = "=0.29.11", default-features = false }
