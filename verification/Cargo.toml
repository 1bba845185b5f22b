[package]
name = "disk_usage"
version = "0.1.0"
edition = "2021"
publish = false

[dependencies]
anyhow = "1"
atty = "0.2"
clap = { version = "4", features = ["derive"] }
filesize = "0.2"
owo-colors = "3.5"
wild = "2"
