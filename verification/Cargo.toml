[package]
name = "sled_core"
version = "0.1.0"
edition = "2021"
publish = false

[dependencies]
spatial_led = "*"
palette = "0.7"
rand = "0.8"
