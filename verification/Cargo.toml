[package]
name = "converter"
version = "0.1.0"
edition = "2021"
publish = false

[dependencies]
csv = "1"
regex = "1"
clap = { version = "4", features = ["derive"] }
thiserror = "1"
