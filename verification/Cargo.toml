[package]
name = "tesseractory"
version = "0.1.0"
edition = "2021"
publish = false

[dependencies]
bytemuck = "=1.25.2"
ultraviolet = { version = "=0.10.0", features = ["int"] }
godot = "*"
log = "0.4"
env_logger = "*"
