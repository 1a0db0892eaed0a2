[package]
name = "rosace-widgets"
version = "0.1.0"
edition = "2021"
publish = false

[dependencies]
tiny-skia = "0.11"
web-time = "1"
