[package]
name = "remote_dict"
version = "0.1.0"
edition = "2021"
publish = false

[dependencies]
persy = "*"
tokio = { version = "*", features = ["full"] }
tokio-util = { version = "*", features = ["codec"] }
futures = "*"
clap = { version = "*", features = ["derive"] }
anyhow = "*"
