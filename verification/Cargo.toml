[package]
name = "mmachine"
version = "0.1.0"
edition = "2021"
publish = false

[dependencies]
array-init = "=2.1.0"
clap = { version = "=4.6.7", features = ["derive"] }

[dev-dependencies]
regex = "1"
