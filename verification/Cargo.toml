[package]
name = "port_scanner"
version = "0.1.0"
edition = "2021"
publish = false

[dependencies]
pnet = "*"
rayon = "*"
log = "*"
env_logger = "*"
failure = "*"
