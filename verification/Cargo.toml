[package]
name = "lopdf"
version = "0.1.0"
edition = "2021"
publish = false

[dependencies]
clap = { version = "=4.6.7", features = ["cargo"] }
env_logger = "=0.11.11"
flate2 = "1"
log = "=0.4.34"
rayon = "=1.12.0"
