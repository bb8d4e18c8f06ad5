[package]
name = "flowfield"
version = "0.1.0"
edition = "2021"
publish = false

[dependencies]
vecmath = "1.0"
num = "0.4"
rand = "0.5"
piston_window = "*"
piston2d-opengl_graphics = "*"
font-loader = "*"
