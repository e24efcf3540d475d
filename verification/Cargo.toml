[package]
name = "hum"
version = "0.6.0"
edition = "2021"
publish = false

[dependencies]
ropey = { version = "=1.6.1", default-features = false }
hound = "*"
clap = "*"
crossterm = "*"
ratatui = "*"
