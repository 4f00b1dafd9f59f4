[package]
name = "vpxdec"
version = "0.1.0"
edition = "2021"
publish = false

[dependencies]
vpx-sys = "=0.1.1"
