[package]
name = "hex_renderer"
version = "0.1.0"
edition = "2021"
publish = false

[dependencies]
tiny-skia = "*"
rusttype = "*"
clap = { version = "*", features = ["derive"] }
