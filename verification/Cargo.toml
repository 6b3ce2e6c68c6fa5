[package]
name = "nearsat"
version = "0.1.0"
edition = "2021"
publish = false

[dependencies]
sgp4 = "*"
chrono = "*"
serde_json = "*"
