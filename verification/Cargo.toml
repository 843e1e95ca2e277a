[package]
name = "disk_scanner"
version = "0.1.0"
edition = "2021"
publish = false

[dependencies]
anyhow = "1"
clap = { version = "4", features = ["derive"] }
filesize = "0.2"
humansize = "2"
indicatif = "0.17"
jwalk = "0.8"
owo-colors = "4"
