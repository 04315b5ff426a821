[package]
name = "trampoline"
version = "0.1.0"
edition = "2021"
publish = false

[dependencies]
glam = "=0.20.5"
glfw = { version = "=0.51.0", default-features = false }
