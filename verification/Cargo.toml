[package]
name = "playground"
version = "0.1.0"
edition = "2021"
publish = false

[dependencies]
quadtree_rs = "0.1"
num = "0.2"
rand = "0.8"
piston = "*"
piston2d-graphics = "*"
pistoncore-glutin_window = "*"
piston2d-opengl_graphics = "*"

[dev-dependencies]
splines = "4"
