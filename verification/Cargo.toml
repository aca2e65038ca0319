[package]
name = "multiping"
version = "0.1.0"
edition = "2021"
publish = false

[dependencies]
clap = "2"
error-chain = "*"
futures = "0.1"
tokio-core = "0.1"
tokio-ping = "*"
