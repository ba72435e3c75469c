[package]
name = "bhi"
version = "0.1.0"
edition = "2021"
publish = false

[dependencies]
snap = "1"
image = { version = "0.24", default-features = false, features = ["jpeg", "png", "ico", "bmp", "tiff"] }
druid = "0.7"
sdl2 = "0.35"
