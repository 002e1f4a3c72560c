[package]
name = "stella_app"
version = "0.1.0"
edition = "2021"
publish = false

[dependencies]
unicode-segmentation = "=1.13.3"
anyhow = "=1.0.104"
image = { version = "0.25", default-features = false, features = ["png"] }
