[package]
name = "consensus_core"
version = "0.1.0"
edition = "2021"
publish = false

[dependencies]
rand = "0.8"
actix = "*"
jemini = "*"
log = "*"
env_logger = "*"
