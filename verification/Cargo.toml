[package]
name = "maze_runner"
version = "0.1.0"
edition = "2021"
publish = false

[dependencies]
minifb = "*"
image = "*"
gilrs = "*"
rodio = "*"
nalgebra-glm = "*"
