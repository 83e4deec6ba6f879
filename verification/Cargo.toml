[package]
name = "corsaconnect"
version = "0.1.0"
edition = "2021"
publish = false

[dependencies]
eframe = { version = "0.37", default-features = false, features = ["glow", "x11", "default_fonts"] }
image = { version = "0.25", default-features = false, features = ["png"] }
nokhwa = { version = "0.10", default-features = false }
tract-onnx = "0.23"
vigem-client = "*"
