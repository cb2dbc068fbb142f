[package]
name = "svg_shape"
version = "0.1.0"
edition = "2021"
publish = false

[dependencies]
geom_2d = "*"
web-sys = { version = "*", features = ["Element", "Document", "Window"] }
