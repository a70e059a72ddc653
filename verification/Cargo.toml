[package]
name = "boresight"
version = "0.1.0"
edition = "2021"
publish = false

[dependencies]
anyhow = "1"
chrono = "0.4"
clap = { version = "4", features = ["derive"] }
crossterm = "0.28"
csv = "1"
nalgebra = "0.33"
ratatui = "0.29"
serde = { version = "1", features = ["derive"] }
sgp4 = "2"
toml = "0.8"
