[package]
name = "rustdsplit"
version = "0.1.0"
edition = "2021"
publish = false

[dependencies]
colored = "2"
env_logger = "0.9"
structopt = "0.3"

[dev-dependencies]
regex = "1"
