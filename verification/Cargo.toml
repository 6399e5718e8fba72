[package]
name = "busreplay"
version = "0.1.0"
edition = "2021"
publish = false

[dependencies]
ablf = "*"
arrow = "*"
chrono = "*"
clap = { version = "*", features = ["derive"] }
parquet = "*"
peak-can = "*"
