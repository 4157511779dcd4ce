[package]
name = "escape_maze"
version = "0.1.0"
edition = "2021"
publish = false

[dependencies]
image = { version = "0.25", default-features = false, features = ["png"] }
minifb = { version = "0.27", default-features = false }
gilrs = { version = "0.11", default-features = false }
nalgebra-glm = "0.19"
rodio = { version = "0.19", default-features = false }
