[package]
name = "semanticgrep"
version = "0.1.0"
edition = "2021"
publish = false

[dependencies]
regex = "1"
globset = "0.4"
ignore = "0.4"
termcolor = "1"
clap = { version = "4", features = ["derive"] }
anyhow = "1"
env_logger = "*"
model2vec-rs = "*"
