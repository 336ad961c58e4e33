[package]
name = "doq"
version = "0.2.0"
edition = "2021"
publish = false

[dependencies]
chrono = "0.4"
clap = "2"
serde = { version = "1", features = ["derive"] }
serde_derive = "1"
serde_yaml = "0.8"
ansi_term = "0.12"
close_enough = "*"
