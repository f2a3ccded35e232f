[package]
name = "findr"
version = "0.1.0"
edition = "2021"
publish = false

[dependencies]
clap = { version = "4", features = ["derive"] }
crossterm = "*"
edit = "*"
ignore = "*"
lazy_static = "1"
nucleo = "*"
ratatui = "*"
rayon = "1"
syntect = { version = "5", default-features = false, features = ["default-fancy"] }
