[package]
name = "vicki"
version = "0.1.0"
edition = "2021"
publish = false

[dependencies]
anyhow = "1"
log = "0.4"
smol = "*"
turbosloth = "*"
winit = "0.19"
