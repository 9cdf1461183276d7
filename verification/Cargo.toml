[package]
name = "globe_viewer"
version = "0.1.0"
edition = "2021"
publish = false

[dependencies]
glium = "0.23"
image = "0.20"
imgui = "0.0.22"
imgui-glium-renderer = "0.0.22"
nalgebra = "0.21"
