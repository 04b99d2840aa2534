[package]
name = "sov-tx-cannon"
version = "0.1.0"
edition = "2021"
publish = false

[dependencies]
getrandom = "0.2"
hex = "0.4"
serde_json = "1"
zeroize = "1"
eframe = { version = "0.29", default-features = false, features = ["default_fonts", "glow", "x11"] }
