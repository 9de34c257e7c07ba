[package]
name = "himitsu"
version = "0.1.0"
edition = "2021"
publish = false

[dependencies]
chrono = { version = "=0.4.45", default-features = false, features = ["std", "alloc"] }
serde_json = "=1.0.154"
serde = { version = "=1.0.229", features = ["derive"] }
serde_yaml = "=0.9.34"
clap = { version = "=4.6.7", features = ["derive"] }
owo-colors = "*"
nucleo-matcher = "*"
sha2 = "*"
