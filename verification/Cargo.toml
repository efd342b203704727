[package]
name = "client"
version = "0.1.0"
edition = "2021"
publish = false

[dependencies]
image = "0.24"
regex = "1"
gl = "0.14"
glfw = { version = "0.51", default-features = false }
nanoserde = "0.1"
