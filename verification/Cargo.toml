[package]
name = "vox"
version = "0.1.0"
edition = "2021"
publish = false

[dependencies]
anyhow = "1"
clap = { version = "4", features = ["derive"] }
crossterm = "0.28"
dirs = "5"
lofty = "0.22"
ratatui = "0.29"
rayon = "1"
rodio = "0.20"
rustfft = "6"
serde = { version = "1", features = ["derive"] }
serde_json = "1"
sled = "0.34"
unicode-segmentation = "1"
unicode-width = "0.2"
walkdir = "2"
