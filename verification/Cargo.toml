[package]
name = "streamline"
version = "0.1.0"
edition = "2021"
publish = false

[dependencies]
lru = "*"
seahash = "*"
rect_packer = "*"
image = { version = "*", default-features = false, features = ["png"] }
find_folder = "*"
time = "0.1"
glium = "*"
glutin = "*"
