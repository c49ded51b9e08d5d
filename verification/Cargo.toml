[package]
name = "sturgeon"
version = "0.1.0"
edition = "2021"
publish = false

[dependencies]
clap = "2"
hyper = "0.13"
log = "0.4"
simple_logger = "1"
tokio = { version = "0.2", features = ["full"] }
