[package]
name = "tec_controller"
version = "0.1.0"
edition = "2021"
publish = false

[dependencies]
fixed = "=1.31.0"
heapless = "=0.9.3"
