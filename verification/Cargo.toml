[package]
name = "text_reader"
version = "0.1.0"
edition = "2021"
publish = false

[dependencies]
encoding_rs = "*"
time = "*"
serde = "*"
serde_json = "*"
eframe = { version = "*", default-features = false, features = ["glow", "x11", "default_fonts"] }
