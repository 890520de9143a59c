[package]
name = "embedded-graphics-framebuffer"
version = "0.1.0"
edition = "2021"
publish = false

[dependencies]
embedded-graphics = "0.7.1"
framebuffer = "*"
