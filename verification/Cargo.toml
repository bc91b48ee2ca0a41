[package]
name = "mac_cleaner"
version = "0.1.0"
edition = "2021"
publish = false

[dependencies]
serde_json = "1"
jwalk = "*"
libc = "0.2"
egui = "*"
eframe = { version = "*", default-features = false, features = ["glow", "x11", "default_fonts"] }
