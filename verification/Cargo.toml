[package]
name = "asset_extractor"
version = "0.1.0"
edition = "2021"
publish = false

[dependencies]
flate2 = "=1.1.10"
png = "=0.18.1"
clap = { version = "=4.6.7", features = ["derive"] }
glob = "=0.3.4"
humantime = "*"
