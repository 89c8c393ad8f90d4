[package]
name = "palawan_installer"
version = "0.1.0"
edition = "2021"
publish = false

[dependencies]
anyhow = "1"
crossbeam-channel = "0.5"
crossterm = "0.28"
ratatui = "0.29"
libc = "0.2"
