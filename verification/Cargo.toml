[package]
name = "imgui-sdl3-renderer"
version = "0.1.0"
edition = "2021"
publish = false

[dependencies]
imgui = "*"
sdl3 = "*"
sdl3-sys = "*"
