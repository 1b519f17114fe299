[package]
name = "folder_cleaner"
version = "0.1.0"
edition = "2021"
publish = false

[dependencies]
sha2 = "0.10"
hex = "0.4"
chrono = "0.4"
serde = { version = "1", features = ["derive"] }
bincode = "1"
trash = "5"
dirs = "6"
open = "5"
rayon = "1"
image = { version = "0.25", default-features = false, features = ["png"] }
eframe = { version = "0.33", default-features = false, features = ["default_fonts", "glow", "x11", "wayland"] }
rfd = "0.17"
