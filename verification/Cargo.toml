[package]
name = "cvd"
version = "0.1.0"
edition = "2021"
publish = false

[dependencies]
clap = "2.33"
env_logger = "0.8"
log = "0.4"
