[package]
name = "metea"
version = "0.1.0"
edition = "2021"
publish = false

[dependencies]
urlencoding = "=2.1.3"
serde = { version = "1", features = ["derive"] }
serde_json = "1"
chrono = "0.4"
reqwest = { version = "0.13", default-features = false, features = ["blocking", "json"] }
egui = { version = "0.37", default-features = false, features = ["default_fonts"] }
egui_plot = { version = "*", default-features = false }
eframe = { version = "0.37", default-features = false, features = ["default_fonts", "glow", "x11"] }
dirs = "*"
log = "0.4"
android_logger = "*"
jni = "*"
winit = { version = "0.30", default-features = false }
