[package]
name = "mzr"
version = "0.1.0"
edition = "2021"
publish = false

[dependencies]
anyhow = "=1.0.104"
clap = "=4.6.7"
indicatif = "=0.18.6"
socketcan = "=4.0.0"
