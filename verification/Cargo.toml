[package]
name = "aud"
version = "0.1.0"
edition = "2021"
publish = false

[dependencies]
anyhow = "1"
clap = { version = "4", features = ["derive"] }
cpal = "0.15"
crossbeam = "0.8"
crossterm = "0.27"
dirs = "5"
notify = "6"
ratatui = "0.26"
