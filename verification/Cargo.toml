[package]
name = "airmode_tagger"
version = "0.1.0"
edition = "2021"
publish = false

[dependencies]
chrono = "*"
clap = { version = "*", features = ["derive"] }
kamadak-exif = "*"
img-parts = "*"
reqwest = { version = "*", default-features = false, features = ["blocking"] }
scraper = "*"
serde_json = "*"
