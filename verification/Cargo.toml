[package]
name = "xtop"
version = "0.1.0"
edition = "2021"
publish = false

[dependencies]
anyhow = "1"
crossterm = "0.28"
dirs = "5"
libc = "0.2"
nvml-wrapper = "0.10"
ratatui = "0.29"
toml = "0.8"
