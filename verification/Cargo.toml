[package]
name = "px2ansi_rs"
version = "0.1.0"
edition = "2021"
publish = false

[dependencies]
anyhow = "*"
clap = { version = "*", features = ["derive"] }
image = "*"
terminal_size = "*"
