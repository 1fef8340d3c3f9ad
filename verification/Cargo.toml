[package]
name = "chess_core"
version = "0.1.0"
edition = "2021"
publish = false

[dependencies]
binverse = "*"
binverse_derive = "*"
rand = "0.8"
sdl2 = { version = "*", features = ["image", "ttf"] }
