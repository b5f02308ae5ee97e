[package]
name = "rdu"
version = "0.1.0"
edition = "2021"
publish = false

[dependencies]
humansize = "2"
ratatui = "0.26"
crossterm = "0.27"
anyhow = "1"
rayon = "1"
