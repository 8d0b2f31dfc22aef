[package]
name = "viz_csv"
version = "0.1.0"
edition = "2021"
publish = false

[dependencies]
eframe = { version = "*", default-features = false, features = ["glow", "persistence", "x11"] }
egui = "*"
egui_file = "*"
egui_plot = "*"
