[package]
name = "kondo"
version = "0.1.0"
edition = "2021"
publish = false

[dependencies]
regex = "1"
rayon = "1"
ratatui = "0.26"
crossterm = "0.27"
chrono = "0.4"
serde = { version = "1", features = ["derive"] }
toml = "0.8"
