[package]
name = "mrfy"
version = "0.1.0"
edition = "2021"
publish = false

[dependencies]
json-event-parser = "0.2"
flate2 = "1"
indicatif = "*"
anyhow = "1"
clap = { version = "4", features = ["derive"] }
