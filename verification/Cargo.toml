[package]
name = "traffic_score"
version = "0.1.0"
edition = "2021"
publish = false

[dependencies]
anyhow = "1"
clap = "2"
env_logger = "*"
log = "0.4"
num-format = "*"
