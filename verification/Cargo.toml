[package]
name = "alarm-clock"
version = "0.1.0"
edition = "2021"
publish = false

[dependencies]
anyhow = "=1.0.104"
chrono = { version = "=0.4.45", features = ["clock"] }
chrono-tz = "=0.10.4"
clap = { version = "=4.6.7", features = ["derive"] }
crossterm = "=0.29.0"
ctrlc = "=3.5.2"
directories = "=6.0.0"
iana-time-zone = "=0.1.65"
inquire = "=0.9.4"
notify-rust = "4"
regex = "=1.13.1"
serde = { version = "=1.0.229", features = ["derive"] }
tempfile = "=3.27.0"
thiserror = "=2.0.21"
toml = "=0.9.8"
