[package]
name = "word_nerd"
version = "0.1.0"
edition = "2021"
publish = false

[dependencies]
rand = "0.9"
eframe = { version = "*", default-features = false, features = ["glow", "x11", "default_fonts"] }
egui-theme-switch = "*"
preferences = "*"
rfd = { version = "*", default-features = false, features = ["xdg-portal", "tokio"] }
serde = { version = "1", features = ["derive"] }
