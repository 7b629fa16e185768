[package]
name = "wscb_atlas"
version = "0.1.0"
edition = "2021"
publish = false

[dependencies]
sdl3-sys = "*"
thiserror = "*"
