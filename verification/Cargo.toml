[package]
name = "subnet_calculator"
version = "0.1.0"
edition = "2021"
publish = false

[dependencies]
uuid = { version = "*", features = ["v4"] }
eframe = { version = "*", default-features = false, features = ["glow"] }
egui = { version = "*", default-features = false }
