[package]
name = "slopcc"
version = "0.1.0"
edition = "2021"
publish = false

[dependencies]
clap = { version = "4", features = ["derive"] }
mimalloc = "0.1"
thiserror = "2"
