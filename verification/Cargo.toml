[package]
name = "float_launcher"
version = "0.1.0"
edition = "2021"
publish = false

[dependencies]
crossbeam-channel = "*"
directories = "*"
eframe = { version = "*", default-features = false, features = ["glow", "x11", "default_fonts"] }
log = "*"
serde = { version = "*", features = ["derive"] }
serde_json = "*"
tray-icon = "*"
