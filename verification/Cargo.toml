[package]
name = "backend"
version = "0.1.0"
edition = "2021"
publish = false

[dependencies]
opencv = "=0.101.0"
ort = "=2.0.0-rc.13"
