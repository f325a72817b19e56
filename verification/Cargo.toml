[package]
name = "sprint_planner"
version = "0.1.0"
edition = "2021"
publish = false

[dependencies]
eframe = { version = "*", default-features = false, features = ["glow", "persistence", "x11"] }
egui = "*"
serde = { version = "*", features = ["derive"] }
