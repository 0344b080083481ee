[package]
name = "kdl"
version = "0.1.0"
edition = "2021"
publish = false

[dependencies]
vitaly = "*"
hidapi = "*"
serde_json = "*"
argh = "*"
env_logger = "*"
log = "*"
