[package]
name = "hetscan"
version = "0.1.0"
edition = "2021"
publish = false

[dependencies]
clap = { version = "4", features = ["derive"] }
log = "0.4"
rust-htslib = { version = "*", default-features = false }
simple_logger = "*"
thiserror = "1"
