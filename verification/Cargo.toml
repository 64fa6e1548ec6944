[package]
name = "pulse"
version = "0.7.0"
edition = "2021"
publish = false

[dependencies]
anyhow = "=1.0.104"
aya = "=0.13.1"
clap = { version = "=4.6.7", features = ["derive"] }
crossterm = "=0.29.0"
libc = "=0.2.191"
nix = { version = "=0.31.3", features = ["signal"] }
ratatui = "=0.30.2"
tachyonfx = "=0.25.2"
