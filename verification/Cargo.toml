[package]
name = "pcode"
version = "0.1.0"
edition = "2021"
publish = false

[dependencies]
num = "*"
sleigh = "*"
anyhow = "*"
clap = { version = "*", features = ["derive"] }
serde = { version = "*", features = ["derive"] }
serde_json = "*"
