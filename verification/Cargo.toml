[package]
name = "nodes"
version = "0.1.0"
edition = "2021"
publish = false

[dependencies]
serde = { version = "=1.0.229", features = ["derive"] }
serde_json = "=1.0.154"
chrono = { version = "=0.4.45", features = ["serde"] }
clap = { version = "=4.6.7", features = ["derive"] }
egui = "=0.37.0"
egui-wgpu = { version = "=0.37.0", features = ["winit"] }
egui-winit = "=0.37.0"
winit = "=0.30.13"
pollster = "=1.0.1"
