[package]
name = "yac"
version = "0.1.0"
edition = "2021"
publish = false

[dependencies]
relative-path = "=2.0.2"
path-absolutize = "=4.0.1"
serde = { version = "*", features = ["derive"] }
serde_json = "*"
serde_yaml = "*"
toml = "*"
thiserror = "*"
tokio = { version = "*", features = ["fs", "macros", "rt-multi-thread", "io-util", "process"] }
clap = { version = "*", features = ["derive"] }
crossterm = "*"
libloading = "*"
walkdir = "*"
blake2 = "0.10"
file-hashing = "*"
