[package]
name = "gl_renderer"
version = "0.1.0"
edition = "2021"
publish = false

[dependencies]
glutin = "=0.28.0"
nalgebra = "=0.32.6"
gl = "=0.14.0"
