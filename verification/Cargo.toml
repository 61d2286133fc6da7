[package]
name = "studio_core"
version = "0.1.0"
edition = "2021"
publish = false

[dependencies]
serde = { version = "=1.0.229", features = ["derive"] }
serde_json = "=1.0.154"
earcutr = "=0.5.0"
fasteval = "=0.2.4"
console = "=0.16.6"
dialoguer = "=0.12.0"
crossterm = "=0.29.0"
