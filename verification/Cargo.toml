[package]
name = "rust_synth"
version = "0.1.0"
edition = "2021"
publish = false

[dependencies]
cpal = "=0.17.3"
eframe = { version = "=0.33.3", default-features = false, features = ["glow", "default_fonts", "x11"] }
egui = "=0.33.3"
