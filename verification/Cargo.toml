[package]
name = "photo_organizer"
version = "0.1.0"
edition = "2021"
publish = false

[dependencies]
anyhow = "1"
clap = { version = "4", features = ["derive"] }
indicatif = "*"
kamadak-exif = "0.5"
log = "0.4"
serde_json = "1"
walkdir = "2"
