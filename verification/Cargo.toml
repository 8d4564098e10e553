[package]
name = "ser2tcp_tester"
version = "0.1.0"
edition = "2021"
publish = false

[dependencies]
anyhow = "1"
bus = "2"
clap = { version = "4", features = ["derive", "cargo"] }
ctrlc = "3"
rand = "0.8"
serialport = { version = "4", default-features = false }
url = "2"
