[package]
name = "enact"
version = "0.1.0"
edition = "2021"
publish = false

[dependencies]
anyhow = "1"
flexi_logger = "*"
itertools = "*"
log = "0.4"
structopt = "0.3"
