[package]
name = "ns_emu_cheats_downloader"
version = "0.1.0"
edition = "2021"
publish = false

[dependencies]
curl = "*"
scraper = "*"
serde = { version = "*", features = ["derive"] }
serde_json = "*"
eframe = { version = "*", default-features = false, features = ["default_fonts", "glow", "x11"] }
egui = "*"
egui_extras = { version = "*", default-features = false }
rfd = "*"
