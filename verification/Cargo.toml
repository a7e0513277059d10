[package]
name = "minimax_toruney"
version = "0.1.0"
edition = "2021"

[dependencies]
arrayvec = "0.7"
clap = { version = "4", features = ["derive"] }
