[package]
name = "simpermut"
version = "0.3.1"
edition = "2021"
publish = false

[dependencies]
chrono = "=0.4.45"
clap = "=2.34.0"
indicatif = "0.17"
rand = "=0.7.3"
regex = "=1.13.1"
serde = "=1.0.229"
serde_derive = "=1.0.229"
serde_json = "=1.0.154"
uuid = { version = "=0.8.2", features = ["v4"] }
