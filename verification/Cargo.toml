[package]
name = "vagga_core"
version = "0.1.0"
edition = "2021"
publish = false

[dependencies]
elfkit = "=0.0.1"
glob = "=0.3.4"
