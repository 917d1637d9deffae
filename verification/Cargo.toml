[package]
name = "stck"
version = "0.3.0"
edition = "2021"
publish = false

[dependencies]
clap = { version = "4", features = ["derive"] }
colored = "2"
thiserror = "1"
