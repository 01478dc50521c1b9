[package]
name = "afk"
version = "0.1.0"
edition = "2021"
publish = false

[dependencies]
anyhow = "1"
chrono = "0.4"
clap = "2"
crossterm = "0.27"
rand = "0.8"
