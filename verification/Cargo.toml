[package]
name = "xpui-simulator"
version = "0.1.0"
edition = "2021"
publish = false

[dependencies]
embedded-graphics = "0.8"
embedded-graphics-simulator = { version = "0.8", default-features = false }
