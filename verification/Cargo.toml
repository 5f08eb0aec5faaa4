[package]
name = "iatodng"
version = "0.1.0"
edition = "2021"
publish = false

[dependencies]
chrono = "*"
rawler = "*"
clap = { version = "*", features = ["derive"] }
