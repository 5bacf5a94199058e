[package]
name = "logseek"
version = "0.1.0"
edition = "2021"
publish = false

[dependencies]
memchr = "2"
encoding_rs = "0.8"
serde_json = "1"
regex = "1"
rayon = "1"
chrono = { version = "0.4", default-features = false, features = ["clock"] }
serde = { version = "1", features = ["derive"] }
memmap2 = "0.9"
notify = "*"
egui = "0.31"
eframe = { version = "0.31", default-features = false, features = ["glow", "default_fonts", "x11"] }
egui_extras = { version = "0.31", default-features = false }
rfd = "*"
arboard = { version = "3", default-features = false }
