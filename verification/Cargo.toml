[package]
name = "excel_config"
version = "0.1.0"
edition = "2021"
publish = false

[dependencies]
lz4 = "1"
anyhow = "1"
clap = { version = "4", features = ["derive"] }
walkdir = "2"
calamine = "*"
tracing = "0.1"
tracing-subscriber = "0.3"

[dev-dependencies]
bincode = "1"
