[package]
name = "launch_leds"
version = "0.1.0"
edition = "2021"
publish = false

[dependencies]
rand = "0.8"
system76_ectool = "*"
hidapi = "*"
winit = "0.28"
softbuffer = "0.2"
tiny-skia = "*"
bytemuck = "*"
