[package]
name = "game_of_life"
version = "0.1.0"
edition = "2021"
publish = false

[dependencies]
clap = "2"
find_folder = "0.3"
fps_counter = "*"
image = { version = "*", default-features = false, features = ["bmp", "jpeg", "png"] }
piston2d-opengl_graphics = "*"
piston_window = "*"
rand = "0.8"
