[package]
name = "marketeer"
version = "1.0.0"
edition = "2021"
publish = false

[dependencies]
chrono = "0.4"
eframe = { version = "*", default-features = false, features = ["default_fonts", "glow", "x11"] }
egui_commonmark = "*"
egui_plot = "*"
rusqlite = { version = "*", features = ["bundled"] }
serde = { version = "1", features = ["derive"] }
serde_json = "1"
ureq = { version = "3", features = ["json"] }
