[package]
name = "pacfront"
version = "0.1.0"
edition = "2021"
publish = false

[dependencies]
alpm = "4"
alpm-utils = "4"
anyhow = "1"
dirs = "6"
eframe = { version = "0.31", default-features = false, features = ["glow", "x11"] }
egui_colors = "0.8"
egui_dock = "0.16"
egui_extras = { version = "0.31", default-features = false }
ouroboros = "0.18"
ron = "0.10"
serde = { version = "1", features = ["derive"] }
smol_str = "0.3"
