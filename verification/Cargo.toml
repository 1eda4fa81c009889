[package]
name = "ultra-kcp-core"
version = "0.1.0"
edition = "2021"
publish = false

[dependencies]
bitflags = "1.3"
