[package]
name = "pitch_detector"
version = "0.1.0"
edition = "2021"
publish = false

[dependencies]
anyhow = "1"
crossterm = "*"
float-cmp = "*"
rustfft = "6"
serde = { version = "1", features = ["derive"] }
serde_json = "1"
