[package]
name = "block_randomizer"
version = "0.1.0"
edition = "2021"
publish = false

[dependencies]
rand = "0.8"
csv = "1"
rust_xlsxwriter = "*"
eframe = { version = "*", default-features = false, features = ["glow", "x11"] }
