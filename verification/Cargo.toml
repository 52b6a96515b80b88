[package]
name = "bf_qbe"
version = "0.1.0"
edition = "2021"
publish = false

[dependencies]
qbe = "*"
clap = { version = "4", features = ["derive"] }
