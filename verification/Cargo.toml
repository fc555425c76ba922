[package]
name = "nomforge"
version = "0.1.0"
edition = "2021"
publish = false

[dependencies]
regex = "1"
chrono = { version = "0.4", default-features = false, features = ["clock", "serde"] }
serde = { version = "1", features = ["derive"] }
serde_json = "1"
clap = { version = "4", features = ["derive"] }
colored = "*"
walkdir = "2"
anyhow = "1"
eframe = { version = "*", default-features = false, features = ["default_fonts", "glow", "x11"] }
rfd = "*"
