[package]
name = "exposure_bracketing"
version = "0.1.0"
edition = "2021"
publish = false

[dependencies]
num-rational = { version = "=0.4.2", default-features = false }
log = "=0.4.34"
env_logger = { version = "=0.11.11", default-features = false }
rawler = "=0.7.2"
rfd = { version = "=0.15.4", default-features = false, features = ["xdg-portal", "tokio"] }
eframe = { version = "=0.29.1", default-features = false, features = ["default_fonts", "glow"] }
winit = { version = "=0.30.13", default-features = false, features = ["x11"] }
