[package]
name = "lightboard"
version = "0.1.0"
edition = "2021"
publish = false

[dependencies]
rlua = "0.17"
toml = "0.5"
serde = { version = "1", features = ["derive"] }
clap = "2"
dmx = "*"
notify = "*"
ggez = "0.5"
imgui = "0.4"
imgui-gfx-renderer = "0.4"
gfx_core = "0.9"
gfx_device_gl = "0.16"
lazy_static = "1"
nalgebra = "0.18"
