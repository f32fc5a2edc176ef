[package]
name = "currust"
version = "0.1.0"
edition = "2021"
publish = false

[dependencies]
anyhow = "*"
clap = { version = "*", features = ["derive"] }
configparser = "*"
fast_image_resize = "*"
ico = "*"
