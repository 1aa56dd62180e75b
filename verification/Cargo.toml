[package]
name = "ironfoil"
version = "0.1.0"
edition = "2021"
publish = false

[dependencies]
clap = { version = "=4.6.7", features = ["derive"] }
color-eyre = "=0.6.5"
env_logger = "=0.11.11"
humansize = "=2.1.3"
indicatif = "0.17"
log = "=0.4.35"
nusb = "=0.2.9"
walkdir = "=2.5.0"
