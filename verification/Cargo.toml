[package]
name = "hpi-interpreter-tree"
version = "0.1.0"
edition = "2021"
publish = false

[dependencies]
chrono = "0.4"
getrandom = "0.2"
