[package]
name = "chess_engine"
version = "0.1.0"
edition = "2021"
publish = false

[dependencies]
rand = "*"
ratatui = "*"
crossterm = "*"
sdl3 = { version = "*", features = ["image"] }
