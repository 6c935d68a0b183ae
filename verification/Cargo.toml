[package]
name = "poc_com"
version = "0.1.0"
edition = "2021"
publish = false

[dependencies]
eframe = { version = "0.29", default-features = false, features = ["default_fonts", "glow", "x11"] }
egui = { version = "0.29", default-features = false, features = ["default_fonts"] }
image = { version = "0.25", default-features = false, features = ["bmp", "gif", "jpeg", "png", "webp"] }
rustfft = "6"
serialport = { version = "4", default-features = false }
ureq = { version = "2", default-features = false, features = ["tls"] }
webbrowser = "1"
