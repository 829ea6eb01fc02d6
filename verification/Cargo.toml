[package]
name = "simul8"
version = "0.1.0"
edition = "2021"
publish = false

[dependencies]
anyhow = "1"
dialog = "0.3"
dyn-clone = "1"
egui = "0.31"
egui-wgpu = "0.31"
egui-winit = "0.31"
env_logger = "0.11"
flume = "0.11"
futures = "0.3"
glam = "0.30"
instant = "0.1"
log = "0.4"
pollster = "0.4"
smol = "2"
wgpu = "24"
winit = "0.30"
