[package]
name = "bareeye"
version = "0.1.0"
edition = "2021"
publish = false

[dependencies]
cameras = { version = "=0.3.2", features = ["controls"] }
egui-cameras = "=0.3.2"
eframe = { version = "=0.34.3", default-features = false, features = ["default_fonts", "glow", "x11"] }
ort = { version = "=2.0.0-rc.15", default-features = false, features = ["std", "cuda", "load-dynamic"] }
windows = { version = "=0.58.0", features = ["Win32_Foundation", "Win32_Media_KernelStreaming", "Win32_Media_MediaFoundation", "Win32_System_Com"] }
