[package]
name = "imgui"
version = "0.1.0"
edition = "2021"
publish = false

[dependencies]
imgui-sys = { version = "=0.12.0", features = ["docking"] }
