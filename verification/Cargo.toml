[package]
name = "hux_core"
version = "0.1.0"
edition = "2021"
publish = false

[dependencies]
hashbrown = "*"
flate2 = "*"
yaml-rust2 = "*"
anyhow = "*"
