[package]
name = "test_runner"
version = "0.1.0"
edition = "2021"
publish = false

[dependencies]
nix = { version = "*", features = ["fs", "process"] }
serde = { version = "*", features = ["derive"] }
termion = "*"
threadpool = "*"
toml = "*"
walkdir = "*"
