[package]
name = "space_shooter"
version = "0.1.0"
edition = "2021"
publish = false

[dependencies]
rand = "*"
piston_window = "*"
