[package]
name = "sprachli"
version = "0.1.0"
edition = "2021"
publish = false

[dependencies]
bigdecimal = "*"
clap = { version = "4", features = ["derive"] }
anyhow = "*"
thiserror = "*"
