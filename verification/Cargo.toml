[package]
name = "gamedec"
version = "0.1.0"
edition = "2021"
publish = false

[dependencies]
flate2 = "1"
ruzstd = "*"
clap = { version = "4", features = ["derive"] }
regex = "1"
